//! A receiver that answers transfer notifications by the message it is sent:
//! it gives the token back or keeps it, now or after one more call.
use vstd::prelude::*;
use crate::account::AccountId;
use crate::nft::ReceiverOutcome;

verus! {

/// The receiver's answer to a transfer notification.
#[derive(Debug, Clone, Copy, PartialEq, Eq, Structural)]
pub enum ReceiverReply {
    /// An answer at once: `true` gives the token back.
    Now(bool),
    /// An answer that comes from a follow-up `ok_go(return_it)` call.
    Later(bool),
}

/// Why the receiver refused a notification.
#[derive(Debug, Clone, Copy, PartialEq, Eq, Structural)]
pub enum ReceiverError {
    /// The notification did not come from the token contract it serves.
    WrongContract,
    /// The message is none of the four that it understands.
    UnsupportedMsg,
}

/// The answer to `msg`, or `None` for a message that is not understood.
pub open spec fn reply_to(msg: Seq<char>) -> Option<ReceiverReply> {
    if msg == "return-it-now"@ {
        Some(ReceiverReply::Now(true))
    } else if msg == "keep-it-now"@ {
        Some(ReceiverReply::Now(false))
    } else if msg == "return-it-later"@ {
        Some(ReceiverReply::Later(true))
    } else if msg == "keep-it-later"@ {
        Some(ReceiverReply::Later(false))
    } else {
        None
    }
}

/// The follow-up call that a receiver makes on itself to answer later.
pub trait ValueReturnTrait {
    /// Answers with `return_it`.
    fn ok_go(&self, return_it: bool) -> (r: bool)
        ensures
            r == return_it,
    ;
}

/// A receiver that serves one token contract.
pub struct TokenReceiver {
    non_fungible_token_account_id: AccountId,
}

impl TokenReceiver {
    /// The token contract that this receiver serves.
    pub closed spec fn token_contract(&self) -> Seq<char> {
        self.non_fungible_token_account_id@
    }

    /// A receiver serving the token contract `non_fungible_token_account_id`.
    pub fn new(non_fungible_token_account_id: AccountId) -> (r: Self)
        ensures
            r.token_contract() == non_fungible_token_account_id@,
    {
        TokenReceiver { non_fungible_token_account_id }
    }

    /// Answers the notification that `token_id` came from `previous_owner_id`
    /// through a call of `sender_id`, sent by `predecessor` with `msg`.
    pub fn nft_on_transfer(
        &self,
        predecessor: &AccountId,
        sender_id: &AccountId,
        previous_owner_id: &AccountId,
        token_id: &String,
        msg: &String,
    ) -> (r: Result<ReceiverReply, ReceiverError>)
        ensures
            predecessor@ != self.token_contract() ==> r == Err::<ReceiverReply, ReceiverError>(ReceiverError::WrongContract),
            predecessor@ == self.token_contract() ==> match reply_to(msg@) {
                Some(reply) => r == Ok::<ReceiverReply, ReceiverError>(reply),
                None => r == Err::<ReceiverReply, ReceiverError>(ReceiverError::UnsupportedMsg),
            },
    {
        if *predecessor != self.non_fungible_token_account_id {
            return Err(ReceiverError::WrongContract);
        }
        if *msg == "return-it-now".to_owned() {
            Ok(ReceiverReply::Now(true))
        } else if *msg == "keep-it-now".to_owned() {
            Ok(ReceiverReply::Now(false))
        } else if *msg == "return-it-later".to_owned() {
            Ok(ReceiverReply::Later(true))
        } else if *msg == "keep-it-later".to_owned() {
            Ok(ReceiverReply::Later(false))
        } else {
            Err(ReceiverError::UnsupportedMsg)
        }
    }
}

impl ValueReturnTrait for TokenReceiver {
    fn ok_go(&self, return_it: bool) -> (r: bool) {
        return_it
    }
}

/// How the exchange with the receiver ends for the token contract: an answer,
/// now or after the follow-up call, or a failure where the receiver refused.
pub open spec fn outcome_of(reply: Result<ReceiverReply, ReceiverError>) -> ReceiverOutcome {
    match reply {
        Ok(ReceiverReply::Now(b)) => ReceiverOutcome::Resolved(b),
        Ok(ReceiverReply::Later(b)) => ReceiverOutcome::Resolved(b),
        Err(_) => ReceiverOutcome::Failed,
    }
}

impl TokenReceiver {
    /// Completes the exchange: makes the follow-up call where the reply asks
    /// for one, and says how the exchange ended.
    pub fn settle(&self, reply: Result<ReceiverReply, ReceiverError>) -> (r: ReceiverOutcome)
        ensures
            r == outcome_of(reply),
    {
        match reply {
            Ok(ReceiverReply::Now(b)) => ReceiverOutcome::Resolved(b),
            Ok(ReceiverReply::Later(b)) => ReceiverOutcome::Resolved(self.ok_go(b)),
            Err(_) => ReceiverOutcome::Failed,
        }
    }
}

} // verus!
