//! Non-fungible tokens with per-token approvals, guarded transfers and a
//! two-phase transfer that notifies the receiver.
use vstd::prelude::*;

pub mod account;
pub mod approvals;
pub mod basic;
pub mod keyed;
pub mod laws;
pub mod nft;
pub mod receiver;

pub use account::{AccountId, is_valid_account_id};
pub use basic::{BasicError, NonFungibleTokenBasic, TokenId, NEP4};
pub use nft::{ApprovalNotice, NftError, NonFungibleToken, PendingTransfer, ReceiverOutcome, Resolution, TokenRecord, TransferEvent};
pub use receiver::{ReceiverError, ReceiverReply, TokenReceiver, ValueReturnTrait};

verus! {

} // verus!
