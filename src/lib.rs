//! Contact records stored as one vCard-like text file per contact.
//!
//! `card` converts between a contact and its card text, `validate` holds the
//! identifier rules applied before a mutation, and `store` decides what each
//! store operation does with the directory of card files.

pub mod card;
pub mod store;
pub mod validate;
