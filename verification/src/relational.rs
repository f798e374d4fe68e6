//! The relational backend: employee records behind a REST interface that
//! answers a select with a JSON array of rows.

use crate::document::{doc_get, document_map, document_maps, Atom, AtomView, Tree, Value};
use crate::error::FetchError;
use bson::Document;
use vstd::prelude::*;
use vstd::string::StringExecFns;

verus! {

/// One row of the employees table.
#[derive(Debug, PartialEq, Eq)]
pub struct Employee {
    pub id: i8,
    pub first_name: String,
    pub age: i8,
    pub interests: String,
    pub city: String,
}

pub struct EmployeeView {
    pub id: i8,
    pub first_name: Seq<char>,
    pub age: i8,
    pub interests: Seq<char>,
    pub city: Seq<char>,
}

impl View for Employee {
    type V = EmployeeView;

    open spec fn view(&self) -> EmployeeView {
        EmployeeView {
            id: self.id,
            first_name: self.first_name@,
            age: self.age,
            interests: self.interests@,
            city: self.city@,
        }
    }
}

/// The integer under `name`, where the row has one that fits in eight bits.
pub open spec fn small_int_of(fields: Map<Seq<char>, Tree>, name: Seq<char>) -> Option<i8> {
    if !fields.contains_key(name) {
        None
    } else {
        match fields[name] {
            Tree::Atom(a) => match a.as_int() {
                Some(n) => if i8::MIN <= n <= i8::MAX {
                    Some(n as i8)
                } else {
                    None
                },
                None => None,
            },
            _ => None,
        }
    }
}

/// The string under `name`, where the row has one.
pub open spec fn string_of(fields: Map<Seq<char>, Tree>, name: Seq<char>) -> Option<Seq<char>> {
    if !fields.contains_key(name) {
        None
    } else {
        match fields[name] {
            Tree::Atom(AtomView::Text(s)) => Some(s),
            _ => None,
        }
    }
}

/// The employee a row holds: all five columns must be there with their types.
pub open spec fn employee_of(fields: Map<Seq<char>, Tree>) -> Option<EmployeeView> {
    match (
        small_int_of(fields, "id"@),
        string_of(fields, "first_name"@),
        small_int_of(fields, "age"@),
        string_of(fields, "interests"@),
        string_of(fields, "city"@),
    ) {
        (Some(id), Some(first_name), Some(age), Some(interests), Some(city)) => Some(
            EmployeeView { id, first_name, age, interests, city },
        ),
        _ => None,
    }
}

/// Whether every row holds an employee.
pub open spec fn all_rows_decode(rows: Seq<Map<Seq<char>, Tree>>) -> bool {
    forall|i: int| 0 <= i < rows.len() ==> (#[trigger] employee_of(rows[i])) is Some
}

/// The views of a sequence of employees.
pub open spec fn employee_views(employees: Seq<Employee>) -> Seq<EmployeeView> {
    employees.map_values(|e: Employee| e@)
}

/// Whether `outcome` is what decoding `rows` must give: every row's employee,
/// one per row and in the rows' order, or a `DecodeError` where some row
/// holds none.
pub open spec fn rows_decode_to(
    outcome: Result<Vec<Employee>, FetchError>,
    rows: Seq<Map<Seq<char>, Tree>>,
) -> bool {
    match outcome {
        Ok(employees) => {
            &&& all_rows_decode(rows)
            &&& employees@.len() == rows.len()
            &&& forall|i: int|
                0 <= i < rows.len() ==> employee_of(rows[i]) == Some((#[trigger] employees@[i])@)
        },
        Err(e) => e == FetchError::DecodeError && !all_rows_decode(rows),
    }
}

fn read_small_int(row: &Document, name: &str) -> (found: Option<i8>)
    ensures
        found == small_int_of(document_map(*row), name@),
{
    match doc_get(row, name) {
        Some(Value::Atom(Atom::Int32(v))) => if -128 <= v && v <= 127 {
            Some(v as i8)
        } else {
            None
        },
        Some(Value::Atom(Atom::Int64(v))) => if -128 <= v && v <= 127 {
            Some(v as i8)
        } else {
            None
        },
        _ => None,
    }
}

fn read_string(row: &Document, name: &str) -> (found: Option<String>)
    ensures
        match found {
            Some(s) => string_of(document_map(*row), name@) == Some(s@),
            None => string_of(document_map(*row), name@) is None,
        },
{
    match doc_get(row, name) {
        Some(Value::Atom(Atom::Text(s))) => Some(s),
        _ => None,
    }
}

/// Decodes one row.
pub fn decode_row(row: &Document) -> (found: Option<Employee>)
    ensures
        match found {
            Some(e) => employee_of(document_map(*row)) == Some(e@),
            None => employee_of(document_map(*row)) is None,
        },
{
    let id = read_small_int(row, "id");
    let first_name = read_string(row, "first_name");
    let age = read_small_int(row, "age");
    let interests = read_string(row, "interests");
    let city = read_string(row, "city");
    match (id, first_name, age, interests, city) {
        (Some(id), Some(first_name), Some(age), Some(interests), Some(city)) => Some(
            Employee { id, first_name, age, interests, city },
        ),
        _ => None,
    }
}

/// Decodes the rows of a response, in response order.
pub fn decode_rows(rows: &Vec<Document>) -> (outcome: Result<Vec<Employee>, FetchError>)
    ensures
        rows_decode_to(outcome, document_maps(rows@)),
{
    let ghost maps = document_maps(rows@);
    let mut employees: Vec<Employee> = Vec::new();
    let mut i: usize = 0;
    while i < rows.len()
        invariant
            i <= rows@.len(),
            maps == document_maps(rows@),
            employees@.len() == i,
            forall|j: int| 0 <= j < i ==> employee_of(maps[j]) == Some((#[trigger] employees@[j])@),
        decreases rows@.len() - i,
    {
        match decode_row(&rows[i]) {
            Some(employee) => {
                employees.push(employee);
            },
            None => {
                assert(employee_of(maps[i as int]) is None);
                return Err(FetchError::DecodeError);
            },
        }
        i += 1;
    }
    assert forall|j: int| 0 <= j < maps.len() implies (#[trigger] employee_of(maps[j])) is Some by {
        assert(employee_of(maps[j]) == Some(employees@[j]@));
    }
    Ok(employees)
}

/// `serde_json::Error`: why a text could not be read. It is carried as far
/// as the place that turns it into a `DecodeError`.
#[verifier::external_type_specification]
#[verifier::external_body]
pub struct ExJsonError(serde_json::Error);

/// The rows that `serde_json` reads out of a response body when it is asked
/// for a sequence of documents: one document for each object of the JSON
/// array that the text spells. `None` where it reports an error instead.
pub uninterp spec fn json_rows(text: Seq<char>) -> Option<Seq<Map<Seq<char>, Tree>>>;

/// `serde_json::from_str`, asked for a sequence of documents: the rows of the
/// text where it succeeds, and no rows where it reports an error.
#[verifier::external_body]
fn parse_rows(text: &str) -> (parsed: Result<Vec<Document>, serde_json::Error>)
    ensures
        match parsed {
            Ok(docs) => json_rows(text@) == Some(document_maps(docs@)),
            Err(_) => json_rows(text@) is None,
        },
{
    serde_json::from_str::<Vec<Document>>(text)
}

/// What came back for the select.
#[derive(Debug, PartialEq, Eq)]
pub enum HttpReply {
    /// The store answered.
    Answered { status: u16, body: String },
    /// No answer arrived.
    Failed,
}

/// Whether the store refused the credential.
pub open spec fn refuses_credential(status: u16) -> bool {
    status == 401 || status == 403
}

/// Whether `outcome` is what a reply must be read as: a `TransportError`
/// without an answer, an `AuthError` where the credential was refused, and
/// otherwise the employees of the body's rows, or a `DecodeError` where the
/// body holds no rows or a row holds no employee.
pub open spec fn reply_reads_as(outcome: Result<Vec<Employee>, FetchError>, reply: HttpReply) -> bool {
    match reply {
        HttpReply::Failed => outcome == Err::<Vec<Employee>, FetchError>(FetchError::TransportError),
        HttpReply::Answered { status, body } => if refuses_credential(status) {
            outcome == Err::<Vec<Employee>, FetchError>(FetchError::AuthError)
        } else {
            match json_rows(body@) {
                None => outcome == Err::<Vec<Employee>, FetchError>(FetchError::DecodeError),
                Some(rows) => rows_decode_to(outcome, rows),
            }
        },
    }
}

/// Decodes a response body into employees.
pub fn decode_body(body: &str) -> (outcome: Result<Vec<Employee>, FetchError>)
    ensures
        match json_rows(body@) {
            None => outcome == Err::<Vec<Employee>, FetchError>(FetchError::DecodeError),
            Some(rows) => rows_decode_to(outcome, rows),
        },
{
    match parse_rows(body) {
        Ok(rows) => decode_rows(&rows),
        Err(_) => Err(FetchError::DecodeError),
    }
}

/// Reads the reply to the select.
pub fn read_reply(reply: &HttpReply) -> (outcome: Result<Vec<Employee>, FetchError>)
    ensures
        reply_reads_as(outcome, *reply),
{
    match reply {
        HttpReply::Failed => Err(FetchError::TransportError),
        HttpReply::Answered { status, body } => {
            if *status == 401 || *status == 403 {
                Err(FetchError::AuthError)
            } else {
                decode_body(body.as_str())
            }
        },
    }
}

/// The backend for the relational store: a select of every column of the
/// employees table, with the credential in the `apikey` header.
#[derive(Debug, PartialEq, Eq)]
pub struct RelationalBackend {
    pub base_url: String,
    pub api_key: String,
}

impl RelationalBackend {
    /// The backend for the store at `base_url`, with the credential `api_key`.
    pub fn new(base_url: &str, api_key: &str) -> (backend: RelationalBackend)
        ensures
            backend.base_url@ == base_url@,
            backend.api_key@ == api_key@,
    {
        RelationalBackend { base_url: String::from_str(base_url), api_key: String::from_str(api_key) }
    }

    /// The table that is selected from.
    pub fn table(&self) -> (name: &'static str)
        ensures
            name@ == "employees"@,
    {
        "employees"
    }

    /// The columns that are selected: all of them.
    pub fn columns(&self) -> (columns: &'static str)
        ensures
            columns@ == "*"@,
    {
        "*"
    }

    /// The header that carries the credential.
    pub fn credential_header(&self) -> (header: (&'static str, &str))
        ensures
            header.0@ == "apikey"@,
            header.1@ == self.api_key@,
    {
        ("apikey", self.api_key.as_str())
    }

    /// The address that the select is sent to.
    pub fn url(&self) -> (url: String)
        ensures
            url@ == self.base_url@ + "/employees?select=*"@,
    {
        self.base_url.clone().concat("/employees?select=*")
    }

    /// Reads the reply to the select.
    pub fn read_reply(&self, reply: &HttpReply) -> (outcome: Result<Vec<Employee>, FetchError>)
        ensures
            reply_reads_as(outcome, *reply),
    {
        read_reply(reply)
    }
}

/// An answer that does not refuse the credential, and whose body holds rows
/// that all hold an employee, is read as exactly those employees: one per
/// row, in the rows' order.
pub proof fn well_formed_rows_come_back_in_order(
    outcome: Result<Vec<Employee>, FetchError>,
    status: u16,
    body: String,
    rows: Seq<Map<Seq<char>, Tree>>,
)
    requires
        reply_reads_as(outcome, HttpReply::Answered { status, body }),
        !refuses_credential(status),
        json_rows(body@) == Some(rows),
        all_rows_decode(rows),
    ensures
        outcome is Ok,
        employee_views(outcome->Ok_0@).len() == rows.len(),
        forall|i: int|
            0 <= i < rows.len() ==> Some(#[trigger] employee_views(outcome->Ok_0@)[i]) == employee_of(
                rows[i],
            ),
{
}

} // verus!
