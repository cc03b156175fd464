//! Identifiers: a label together with the place in the source where it was written.

use std::cmp::Ordering;
use std::hash::{Hash, Hasher};
use vstd::prelude::*;
use vstd::std_specs::cmp::{PartialEqSpecImpl, PartialOrdSpecImpl};
use vstd::std_specs::convert::FromSpecImpl;
use vstd::utf8::encode_utf8;

verus! {

/// A place in a source text: a file and a range of byte offsets in it.
#[derive(Debug, Clone, Copy, PartialEq, Eq, Structural)]
pub struct RawSpan {
    pub src_id: usize,
    pub start: usize,
    pub end: usize,
}

/// Where an identifier was written, if it was written anywhere.
#[derive(Debug, Clone, Copy, PartialEq, Eq, Structural)]
pub enum TermPos {
    /// The item was written at this place.
    Written(RawSpan),
    /// The item has no place in any source.
    Unknown,
}

/// A name. The position is carried along for diagnostics and takes no part in
/// equality, ordering or hashing.
#[derive(Debug, Clone)]
pub struct Ident {
    pub label: String,
    pub pos: TermPos,
}

/// First character of the identifiers that are generated rather than written.
/// It cannot occur at the start of an identifier in a source text.
pub const GEN_PREFIX: char = '%';

impl View for Ident {
    type V = Seq<char>;

    /// An identifier stands for its label alone.
    open spec fn view(&self) -> Seq<char> {
        self.label@
    }
}

/// How one text stands to another in the order of texts.
#[derive(Debug, Clone, Copy, PartialEq, Eq, Structural)]
pub enum Precedence {
    Before,
    Same,
    After,
}

/// The order of byte strings: by the first byte in which they differ; a string
/// comes before those that it starts.
pub open spec fn precedence(a: Seq<u8>, b: Seq<u8>) -> Precedence
    decreases a.len(),
{
    if a.len() == 0 {
        if b.len() == 0 {
            Precedence::Same
        } else {
            Precedence::Before
        }
    } else if b.len() == 0 {
        Precedence::After
    } else if a[0] < b[0] {
        Precedence::Before
    } else if a[0] > b[0] {
        Precedence::After
    } else {
        precedence(a.drop_first(), b.drop_first())
    }
}

/// The order of labels: that of their UTF-8 encodings.
pub open spec fn label_precedence(a: Seq<char>, b: Seq<char>) -> Precedence {
    precedence(encode_utf8(a), encode_utf8(b))
}

/// How the second of two texts stands to the first, given how the first
/// stands to the second.
pub open spec fn flip(p: Precedence) -> Precedence {
    match p {
        Precedence::Before => Precedence::After,
        Precedence::Same => Precedence::Same,
        Precedence::After => Precedence::Before,
    }
}

/// Taken the other way round, the order of byte strings is turned round.
pub proof fn lemma_precedence_flips(a: Seq<u8>, b: Seq<u8>)
    ensures
        precedence(b, a) == flip(precedence(a, b)),
    decreases a.len(),
{
    if a.len() > 0 && b.len() > 0 && a[0] == b[0] {
        lemma_precedence_flips(a.drop_first(), b.drop_first());
    }
}

/// Only a byte string itself stands to it as the same.
pub proof fn lemma_precedence_same(a: Seq<u8>, b: Seq<u8>)
    ensures
        precedence(a, b) == Precedence::Same <==> a == b,
    decreases a.len(),
{
    if a.len() > 0 && b.len() > 0 && a[0] == b[0] {
        lemma_precedence_same(a.drop_first(), b.drop_first());
        if a.drop_first() == b.drop_first() {
            assert(a =~= seq![a[0]] + a.drop_first());
            assert(b =~= seq![b[0]] + b.drop_first());
        }
    }
    if a.len() == 0 && b.len() == 0 {
        assert(a =~= b);
    }
}

/// What comes before something that comes before a third comes before the
/// third.
pub proof fn lemma_precedence_chains(a: Seq<u8>, b: Seq<u8>, c: Seq<u8>)
    requires
        precedence(a, b) == Precedence::Before,
        precedence(b, c) == Precedence::Before,
    ensures
        precedence(a, c) == Precedence::Before,
    decreases a.len(),
{
    if a.len() > 0 && a[0] == b[0] && b[0] == c[0] {
        lemma_precedence_chains(a.drop_first(), b.drop_first(), c.drop_first());
    }
}

/// The order of labels is a strict total order: turned round when taken the
/// other way round, the same for equal labels only, and chaining.
pub proof fn lemma_label_order(a: Seq<char>, b: Seq<char>, c: Seq<char>)
    ensures
        label_precedence(b, a) == flip(label_precedence(a, b)),
        label_precedence(a, b) == Precedence::Same <==> a == b,
        label_precedence(a, b) == Precedence::Before && label_precedence(b, c)
            == Precedence::Before ==> label_precedence(a, c) == Precedence::Before,
{
    lemma_precedence_flips(encode_utf8(a), encode_utf8(b));
    lemma_precedence_same(encode_utf8(a), encode_utf8(b));
    vstd::utf8::encode_utf8_decode_utf8(a);
    vstd::utf8::encode_utf8_decode_utf8(b);
    if label_precedence(a, b) == Precedence::Before && label_precedence(b, c)
        == Precedence::Before {
        lemma_precedence_chains(encode_utf8(a), encode_utf8(b), encode_utf8(c));
    }
}

/// Finds how one byte string stands to another.
fn bytes_precedence(a: &[u8], b: &[u8]) -> (r: Precedence)
    ensures
        r == precedence(a@, b@),
{
    let mut i: usize = 0;
    proof {
        assert(a@.skip(0) =~= a@);
        assert(b@.skip(0) =~= b@);
    }
    while i < a.len() && i < b.len()
        invariant
            i <= a.len(),
            i <= b.len(),
            precedence(a@, b@) == precedence(a@.skip(i as int), b@.skip(i as int)),
        decreases a.len() - i,
    {
        proof {
            assert(a@.skip(i as int).drop_first() =~= a@.skip(i as int + 1));
            assert(b@.skip(i as int).drop_first() =~= b@.skip(i as int + 1));
        }
        if a[i] < b[i] {
            return Precedence::Before;
        }
        if a[i] > b[i] {
            return Precedence::After;
        }
        i += 1;
    }
    if i < b.len() {
        Precedence::Before
    } else if i < a.len() {
        Precedence::After
    } else {
        Precedence::Same
    }
}

impl PartialEq for Ident {
    /// Two identifiers are equal when their labels are.
    fn eq(&self, other: &Self) -> (r: bool) {
        self.label == other.label
    }
}

impl Eq for Ident {

}

impl PartialEqSpecImpl for Ident {
    open spec fn obeys_eq_spec() -> bool {
        true
    }

    open spec fn eq_spec(&self, other: &Self) -> bool {
        self@ == other@
    }
}

impl PartialOrd for Ident {
    /// Identifiers are ordered as their labels are.
    fn partial_cmp(&self, other: &Self) -> (r: Option<Ordering>) {
        match self.precedence(other) {
            Precedence::Before => Some(Ordering::Less),
            Precedence::Same => Some(Ordering::Equal),
            Precedence::After => Some(Ordering::Greater),
        }
    }
}

impl PartialOrdSpecImpl for Ident {
    open spec fn obeys_partial_cmp_spec() -> bool {
        true
    }

    open spec fn partial_cmp_spec(&self, other: &Self) -> Option<Ordering> {
        match label_precedence(self@, other@) {
            Precedence::Before => Some(Ordering::Less),
            Precedence::Same => Some(Ordering::Equal),
            Precedence::After => Some(Ordering::Greater),
        }
    }
}

impl Default for Ident {
    /// The identifier of the empty label, written nowhere.
    fn default() -> (r: Ident)
        ensures
            r@ == Seq::<char>::empty(),
            r.pos == TermPos::Unknown,
    {
        Ident { label: String::new(), pos: TermPos::Unknown }
    }
}

impl From<String> for Ident {
    /// The identifier of a label, written nowhere.
    fn from(val: String) -> (r: Ident) {
        Ident { label: val, pos: TermPos::Unknown }
    }
}

impl FromSpecImpl<String> for Ident {
    open spec fn obeys_from_spec() -> bool {
        true
    }

    open spec fn from_spec(val: String) -> Ident {
        Ident { label: val, pos: TermPos::Unknown }
    }
}

impl<'a> From<&'a str> for Ident {
    /// The identifier of a label, written nowhere.
    fn from(val: &'a str) -> (r: Ident)
        ensures
            r@ == val@,
            r.pos == TermPos::Unknown,
    {
        Ident { label: val.to_owned(), pos: TermPos::Unknown }
    }
}

impl<'a> FromSpecImpl<&'a str> for Ident {
    /// Two strings of the same characters need not be the same string, so the
    /// result is stated by what it stands for and not as one value.
    open spec fn obeys_from_spec() -> bool {
        false
    }

    open spec fn from_spec(val: &'a str) -> Ident {
        Ident { label: choose|label: String| label@ == val@, pos: TermPos::Unknown }
    }
}

impl Into<String> for Ident {
    /// Gives up the identifier for its label.
    fn into(self) -> (r: String) {
        self.label
    }
}

impl vstd::std_specs::convert::IntoSpecImpl<String> for Ident {
    open spec fn obeys_into_spec() -> bool {
        true
    }

    open spec fn into_spec(self) -> String {
        self.label
    }
}

impl AsRef<str> for Ident {
    /// The label.
    fn as_ref(&self) -> (r: &str)
        ensures
            r@ == self@,
    {
        self.label.as_str()
    }
}

/// `String::hash` of the standard library, which feeds a string to a hasher.
/// Nothing is claimed of what the hasher holds afterwards.
pub assume_specification<St: std::hash::Hasher>[ <std::string::String as std::hash::Hash>::hash::<St> ](
    s: &std::string::String,
    state: &mut St,
)
;

impl Hash for Ident {
    /// An identifier is hashed as its label is.
    fn hash<H: Hasher>(&self, state: &mut H) {
        self.label.hash(state);
    }
}

/// Whether a label is that of a generated identifier.
pub open spec fn spec_is_generated(label: Seq<char>) -> bool {
    label.len() > 0 && label[0] == GEN_PREFIX
}

impl Ident {
    /// How this identifier stands to another in the order of labels.
    pub fn precedence(&self, other: &Ident) -> (r: Precedence)
        ensures
            r == label_precedence(self@, other@),
    {
        bytes_precedence(self.label.as_str().as_bytes(), other.label.as_str().as_bytes())
    }

    /// Whether this identifier was generated rather than written.
    pub fn is_generated(&self) -> (r: bool)
        ensures
            r == spec_is_generated(self@),
    {
        let label = self.label.as_str();
        !label.is_empty() && label.get_char(0) == GEN_PREFIX
    }

}

} // verus!
