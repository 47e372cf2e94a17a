//! The tree of a document.

use crate::source::location::{Location, Place};
use vstd::prelude::*;

verus! {

/// The mathematical value of an [`Ident`].
pub struct IdentView {
    pub text: Seq<char>,
    pub loc: Place,
}

/// The mathematical value of an [`Opt`].
pub struct OptView {
    pub key: IdentView,
    pub val: Option<IdentView>,
}

/// The mathematical value of a [`DocumentClass`].
pub struct DocumentClassView {
    pub name: IdentView,
    pub opts: Seq<OptView>,
}

/// The mathematical value of a [`Preamble`].
pub struct PreambleView {
    pub class: DocumentClassView,
}

/// The mathematical value of a [`Root`].
pub struct RootView {
    pub preamble: PreambleView,
}

/// A whole document.
#[derive(Debug)]
pub struct Root<'src> {
    pub preamble: Preamble<'src>,
}

/// What comes before the body of a document.
#[derive(Debug)]
pub struct Preamble<'src> {
    pub class: DocumentClass<'src>,
}

/// The declaration of the document class, with its options.
#[derive(Debug)]
pub struct DocumentClass<'src> {
    pub name: Ident<'src>,
    pub opts: Vec<Opt<'src>>,
}

/// An option: a key and, possibly, a value.
#[derive(Debug)]
pub struct Opt<'src> {
    pub key: Ident<'src>,
    pub val: Option<Ident<'src>>,
}

/// An identifier: a piece of the text and where it starts.
#[derive(Debug)]
pub struct Ident<'src> {
    pub src: &'src str,
    pub loc: Location,
}

impl<'src> View for Ident<'src> {
    type V = IdentView;

    open spec fn view(&self) -> IdentView {
        IdentView { text: self.src@, loc: self.loc@ }
    }
}

impl<'src> View for Opt<'src> {
    type V = OptView;

    open spec fn view(&self) -> OptView {
        OptView {
            key: self.key@,
            val: match self.val {
                Some(val) => Some(val@),
                None => None,
            },
        }
    }
}

impl<'src> View for DocumentClass<'src> {
    type V = DocumentClassView;

    open spec fn view(&self) -> DocumentClassView {
        DocumentClassView { name: self.name@, opts: self.opts@.map_values(|opt: Opt<'src>| opt@) }
    }
}

impl<'src> View for Preamble<'src> {
    type V = PreambleView;

    open spec fn view(&self) -> PreambleView {
        PreambleView { class: self.class@ }
    }
}

impl<'src> View for Root<'src> {
    type V = RootView;

    open spec fn view(&self) -> RootView {
        RootView { preamble: self.preamble@ }
    }
}

} // verus!
