//! What a transaction's runes message turns out to be.

use vstd::prelude::*;
use crate::edict::Edict;
use crate::etching::Etching;
use crate::flaw::Flaws;
use crate::rune::Rune;
use crate::rune_id::RuneId;

verus! {

/// A well-formed runes message.
#[derive(Clone, Debug, PartialEq, Eq)]
pub struct Runestone {
    pub edicts: Vec<Edict>,
    pub etching: Option<Etching>,
    pub mint: Option<RuneId>,
    pub pointer: Option<u32>,
}

/// A runestone, as the contracts see it.
pub struct RunestoneView {
    pub edicts: Seq<Edict>,
    pub etching: Option<Etching>,
    pub mint: Option<RuneId>,
    pub pointer: Option<u32>,
}

impl View for Runestone {
    type V = RunestoneView;

    open spec fn view(&self) -> RunestoneView {
        RunestoneView {
            edicts: self.edicts@,
            etching: self.etching,
            mint: self.mint,
            pointer: self.pointer,
        }
    }
}

/// A malformed runes message. It moves nothing and mints nothing, and may
/// still take a name.
#[derive(Copy, Clone, Debug, PartialEq, Eq, Structural)]
pub struct Cenotaph {
    /// The name that the message asks for.
    pub etching: Option<Rune>,
    /// The rune that the message asks to mint.
    pub mint: Option<RuneId>,
    /// What is wrong with the message: one flaw at least.
    pub flaws: Flaws,
}

impl Cenotaph {
    /// Whether the cenotaph names a flaw.
    pub open spec fn well_formed(self) -> bool {
        !self.flaws.empty()
    }

    /// The flaws, in order.
    pub fn flaws(&self) -> (r: Vec<crate::flaw::Flaw>)
        ensures
            r@ == self.flaws.listed(),
    {
        self.flaws.flaws()
    }
}

/// A runes message.
#[derive(Clone, Debug, PartialEq, Eq)]
pub enum Artifact {
    Cenotaph(Cenotaph),
    Runestone(Runestone),
}

/// A runes message, as the contracts see it.
pub enum ArtifactView {
    Cenotaph(Cenotaph),
    Runestone(RunestoneView),
}

impl View for Artifact {
    type V = ArtifactView;

    open spec fn view(&self) -> ArtifactView {
        match self {
            Artifact::Cenotaph(cenotaph) => ArtifactView::Cenotaph(*cenotaph),
            Artifact::Runestone(runestone) => ArtifactView::Runestone(runestone@),
        }
    }
}

/// The view of a message that may be absent.
pub open spec fn artifact_view(artifact: Option<Artifact>) -> Option<ArtifactView> {
    match artifact {
        Some(a) => Some(a@),
        None => None,
    }
}

impl ArtifactView {
    /// The rune that the message asks to mint.
    pub open spec fn mint(self) -> Option<RuneId> {
        match self {
            ArtifactView::Cenotaph(cenotaph) => cenotaph.mint,
            ArtifactView::Runestone(runestone) => runestone.mint,
        }
    }
}

impl Artifact {
    /// The rune that the message asks to mint.
    pub fn mint(&self) -> (r: Option<RuneId>)
        ensures
            r == self@.mint(),
    {
        match self {
            Artifact::Cenotaph(cenotaph) => cenotaph.mint,
            Artifact::Runestone(runestone) => runestone.mint,
        }
    }
}

} // verus!
