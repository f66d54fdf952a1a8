//! What the driver knows of the bus and of the card on it.

use vstd::prelude::*;

use crate::card::{Card, CardModel};
use crate::types::{Hertz, Signalling};

verus! {

/// What the driver knows of the bus and of the card on it.
#[derive(Clone, Copy, Debug, PartialEq, Eq)]
pub struct Link {
    /// Current clock to card
    pub clock: Hertz,
    /// Current signalling scheme to card
    pub signalling: Signalling,
    /// Card
    pub card: Option<Card>,
}

/// A link as a mathematical value.
pub struct LinkModel {
    pub clock: Hertz,
    pub signalling: Signalling,
    pub card: Option<CardModel>,
}

impl View for Link {
    type V = LinkModel;

    open spec fn view(&self) -> LinkModel {
        LinkModel {
            clock: self.clock,
            signalling: self.signalling,
            card: match self.card {
                Some(c) => Some(c@),
                None => None,
            },
        }
    }
}

} // verus!
