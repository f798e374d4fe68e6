//! The RPC backend: one finalized-state account view against a blockchain
//! node, read as the account's balance.

use crate::error::FetchError;
use vstd::prelude::*;
use vstd::string::StringExecFns;

verus! {

/// The node that is asked: the test network's public endpoint.
pub const TESTNET_ENDPOINT: &'static str = "https://rpc.testnet.near.org";

/// A lower-case letter or a digit.
pub open spec fn is_plain(c: char) -> bool {
    ('a' <= c && c <= 'z') || ('0' <= c && c <= '9')
}

/// A character that joins the parts of an account identifier.
pub open spec fn is_separator(c: char) -> bool {
    c == '-' || c == '_' || c == '.'
}

/// Whether a text can name an account: 2 to 64 lower-case letters, digits and
/// separators, with no separator first, last, or next to another.
pub open spec fn well_formed_account(id: Seq<char>) -> bool {
    &&& 2 <= id.len() <= 64
    &&& forall|i: int| 0 <= i < id.len() ==> is_plain(#[trigger] id[i]) || is_separator(id[i])
    &&& !is_separator(id[0])
    &&& !is_separator(id[id.len() - 1])
    &&& forall|i: int| 0 <= i < id.len() - 1 ==> !(is_separator(#[trigger] id[i]) && is_separator(id[i + 1]))
}

/// `str::parse` into a `near_primitives::types::AccountId`, which goes through
/// that type's `from_str`: it succeeds on exactly the well-formed identifiers.
#[verifier::external_body]
fn names_account(text: &str) -> (ok: bool)
    ensures
        ok == well_formed_account(text@),
{
    text.parse::<near_primitives::types::AccountId>().is_ok()
}

/// What the node gave for the account view.
#[derive(Clone, Copy, Debug, PartialEq, Eq, Structural)]
pub enum RpcReply {
    /// The view of the account, with its balance in the smallest unit.
    Account { balance: u128 },
    /// The node knows no account under the identifier.
    UnknownAccount,
    /// An answer of another kind than an account view.
    OtherView,
    /// The round trip failed.
    Failed,
}

/// What a reply is read as: the balance of an account view,
/// `AccountNotFound` for an unknown account, and `RpcTransportError` for
/// everything else.
pub open spec fn reply_outcome(reply: RpcReply) -> Result<u128, FetchError> {
    match reply {
        RpcReply::Account { balance } => Ok(balance),
        RpcReply::UnknownAccount => Err(FetchError::AccountNotFound),
        RpcReply::OtherView => Err(FetchError::RpcTransportError),
        RpcReply::Failed => Err(FetchError::RpcTransportError),
    }
}

/// The backend for the blockchain node, bound to one account.
#[derive(Debug, PartialEq, Eq)]
pub struct RpcBackend {
    account: String,
}

impl RpcBackend {
    #[verifier::type_invariant]
    spec fn names_an_account(self) -> bool {
        well_formed_account(self.account@)
    }

    /// The identifier of the account.
    pub closed spec fn account_id(self) -> Seq<char> {
        self.account@
    }

    /// The backend for `account`. A text that cannot name an account names
    /// none that the node could know: it is refused as `AccountNotFound`.
    pub fn new(account: &str) -> (made: Result<RpcBackend, FetchError>)
        ensures
            match made {
                Ok(backend) => well_formed_account(account@) && backend.account_id() == account@,
                Err(e) => !well_formed_account(account@) && e == FetchError::AccountNotFound,
            },
    {
        if names_account(account) {
            Ok(RpcBackend { account: String::from_str(account) })
        } else {
            Err(FetchError::AccountNotFound)
        }
    }

    /// The identifier to put into the query.
    pub fn account(&self) -> (id: &str)
        ensures
            id@ == self.account_id(),
            well_formed_account(id@),
    {
        proof {
            use_type_invariant(self);
        }
        self.account.as_str()
    }

    /// Reads the node's reply to the query.
    pub fn read_reply(&self, reply: RpcReply) -> (outcome: Result<u128, FetchError>)
        ensures
            outcome == reply_outcome(reply),
    {
        match reply {
            RpcReply::Account { balance } => Ok(balance),
            RpcReply::UnknownAccount => Err(FetchError::AccountNotFound),
            RpcReply::OtherView => Err(FetchError::RpcTransportError),
            RpcReply::Failed => Err(FetchError::RpcTransportError),
        }
    }
}

/// A balance is reported only for the account view that holds it: an unknown
/// account is `AccountNotFound`, and no reply without a balance is read as a
/// balance of zero or of any other amount.
pub proof fn balance_comes_only_from_an_account_view(reply: RpcReply)
    ensures
        reply == RpcReply::UnknownAccount ==> reply_outcome(reply) == Err::<u128, FetchError>(
            FetchError::AccountNotFound,
        ),
        reply_outcome(reply) matches Ok(balance) ==> reply == (RpcReply::Account { balance }),
        !(reply is Account) ==> reply_outcome(reply) is Err,
{
}

} // verus!
