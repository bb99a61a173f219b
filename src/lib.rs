//! Receiver for a disposable inbox: a line-oriented mail protocol state
//! machine, the per-connection decisions around it, and the records that a
//! retention-bounded store keeps.
use vstd::prelude::*;

pub mod database;
pub mod smtp;

verus! {

/// A message accumulated over one connection.
#[derive(Debug, Default, Clone, PartialEq, Eq)]
pub struct Mail {
    pub from: String,
    pub to: Vec<String>,
    pub data: String,
}

/// The mathematical content of a [`Mail`].
pub struct MailView {
    pub from: Seq<char>,
    pub to: Seq<Seq<char>>,
    pub data: Seq<char>,
}

/// The characters of each string of a sequence.
pub open spec fn strings_view(v: Seq<String>) -> Seq<Seq<char>> {
    v.map_values(|s: String| s@)
}

impl View for Mail {
    type V = MailView;

    open spec fn view(&self) -> MailView {
        MailView { from: self.from@, to: strings_view(self.to@), data: self.data@ }
    }
}

} // verus!
