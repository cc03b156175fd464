//! Cursors over the elements of an array and over the fields of a record. The
//! consumer of the decoded values pulls from a cursor what it needs; when it is
//! done, nothing may be left.

use vstd::prelude::*;
use crate::error::{view_result, ErrorView, RustDeserializationError};
use crate::identifier::Ident;
use crate::term::{entries_view, option_view, terms_view, Record, Term, TermView};

verus! {

/// The state of a cursor over an array.
pub struct SeqState {
    /// The elements not pulled yet, the next one first.
    pub remaining: Seq<TermView>,
    /// The number of elements that the array had.
    pub total: nat,
}

impl SeqState {
    /// The cursor before the first element of an array.
    pub open spec fn start(items: Seq<TermView>) -> SeqState {
        SeqState { remaining: items, total: items.len() }
    }

    /// The element that the next pull yields, if there is one.
    pub open spec fn next_element(self) -> Option<TermView> {
        if self.remaining.len() > 0 {
            Some(self.remaining[0])
        } else {
            None
        }
    }

    /// The cursor after one pull.
    pub open spec fn advance(self) -> SeqState {
        if self.remaining.len() > 0 {
            SeqState { remaining: self.remaining.drop_first(), total: self.total }
        } else {
            self
        }
    }

    /// The cursor after a number of pulls.
    pub open spec fn advance_by(self, pulls: nat) -> SeqState
        decreases pulls,
    {
        if pulls == 0 {
            self
        } else {
            self.advance().advance_by((pulls - 1) as nat)
        }
    }

    /// Whether every element was pulled, and the failure if not.
    pub open spec fn end(self) -> Result<(), ErrorView> {
        if self.remaining.len() == 0 {
            Ok(())
        } else {
            Err(ErrorView::InvalidArrayLength(self.total))
        }
    }
}

/// The state of a cursor over a record.
pub struct MapState {
    /// The fields not pulled yet, the next one first.
    pub remaining: Seq<(Seq<char>, TermView)>,
    /// The value of the field whose label was pulled last, until it is pulled too.
    pub pending: Option<TermView>,
    /// The number of fields that the record had.
    pub total: nat,
}

impl MapState {
    /// The cursor before the first field of a record.
    pub open spec fn start(entries: Seq<(Seq<char>, TermView)>) -> MapState {
        MapState { remaining: entries, pending: None, total: entries.len() }
    }

    /// The label that the next pull of a label yields, if a field is left.
    pub open spec fn next_key(self) -> Option<Seq<char>> {
        if self.remaining.len() > 0 {
            Some(self.remaining[0].0)
        } else {
            None
        }
    }

    /// The cursor after a label was pulled: the value of that field is at hand,
    /// in place of any value that was.
    pub open spec fn after_key(self) -> MapState {
        if self.remaining.len() > 0 {
            MapState {
                remaining: self.remaining.drop_first(),
                pending: Some(self.remaining[0].1),
                total: self.total,
            }
        } else {
            self
        }
    }

    /// The value that the next pull of a value yields, or the failure where
    /// none is at hand.
    pub open spec fn next_value(self) -> Result<TermView, ErrorView> {
        match self.pending {
            Some(value) => Ok(value),
            None => Err(ErrorView::MissingValue),
        }
    }

    /// The cursor after a value was pulled: none is at hand.
    pub open spec fn after_value(self) -> MapState {
        MapState { remaining: self.remaining, pending: None, total: self.total }
    }

    /// The cursor after a number of fields were pulled, label and value.
    pub open spec fn advance_by(self, pulls: nat) -> MapState
        decreases pulls,
    {
        if pulls == 0 {
            self
        } else {
            self.after_key().after_value().advance_by((pulls - 1) as nat)
        }
    }

    /// Whether the label of every field was pulled, and the failure if not.
    pub open spec fn end(self) -> Result<(), ErrorView> {
        if self.remaining.len() == 0 {
            Ok(())
        } else {
            Err(ErrorView::InvalidRecordLength(self.total))
        }
    }
}

/// A cursor over the elements of an array.
#[derive(Debug)]
pub struct ArrayDeserializer {
    /// The elements not pulled yet, the next one last.
    stack: Vec<Term>,
    total: usize,
}

impl View for ArrayDeserializer {
    type V = SeqState;

    closed spec fn view(&self) -> SeqState {
        SeqState { remaining: terms_view(self.stack@.reverse()), total: self.total as nat }
    }
}

impl ArrayDeserializer {
    /// A cursor before the first element of an array.
    pub fn new(vec: Vec<Term>) -> (r: Self)
        ensures
            r@ == SeqState::start(terms_view(vec@)),
    {
        let total = vec.len();
        let mut source = vec;
        let mut stack: Vec<Term> = Vec::new();
        while source.len() > 0
            invariant
                source@ == vec@.take(source@.len() as int),
                source@.len() <= vec@.len(),
                stack@ == vec@.skip(source@.len() as int).reverse(),
            decreases source@.len(),
        {
            let term = source.pop().unwrap();
            stack.push(term);
            assert(source@ =~= vec@.take(source@.len() as int));
            assert(stack@ =~= vec@.skip(source@.len() as int).reverse());
        }
        proof {
            assert(stack@.reverse() =~= vec@);
        }
        ArrayDeserializer { stack, total }
    }

    /// Pulls the next element, if one is left.
    pub fn next_element(&mut self) -> (r: Option<Term>)
        ensures
            option_view(r) == old(self)@.next_element(),
            final(self)@ == old(self)@.advance(),
    {
        let r = self.stack.pop();
        proof {
            if r.is_some() {
                assert(terms_view(self.stack@.reverse()) =~= terms_view(
                    old(self).stack@.reverse(),
                ).drop_first());
            }
        }
        r
    }

    /// The number of elements that are left.
    pub fn size_hint(&self) -> (r: Option<usize>)
        ensures
            r == Some(self@.remaining.len() as usize),
            self@.remaining.len() <= usize::MAX,
    {
        Some(self.stack.len())
    }

    /// Checks that no element is left.
    pub fn end(self) -> (r: Result<(), RustDeserializationError>)
        ensures
            view_result(r) == self@.end(),
    {
        if self.stack.len() == 0 {
            Ok(())
        } else {
            Err(RustDeserializationError::InvalidArrayLength(self.total))
        }
    }
}

/// Ends the visit of an array. A failure of the consumer stands; where the
/// consumer succeeded, no element may be left.
pub fn visit_array<T>(
    deserializer: ArrayDeserializer,
    seq: Result<T, RustDeserializationError>,
) -> (r: Result<T, RustDeserializationError>)
    ensures
        match seq {
            Err(e) => r == Err::<T, RustDeserializationError>(e),
            Ok(v) => match deserializer@.end() {
                Ok(_) => r == Ok::<T, RustDeserializationError>(v),
                Err(e) => r is Err && r->Err_0@ == e,
            },
        },
{
    let value = seq?;
    match deserializer.end() {
        Ok(_) => Ok(value),
        Err(e) => Err(e),
    }
}

/// A cursor over the fields of a record.
#[derive(Debug)]
pub struct RecordDeserializer {
    /// The fields not pulled yet, the next one last.
    stack: Vec<(Ident, Term)>,
    /// The value of the field whose label was pulled last.
    rich_term: Option<Term>,
    total: usize,
}

impl View for RecordDeserializer {
    type V = MapState;

    closed spec fn view(&self) -> MapState {
        MapState {
            remaining: entries_view(self.stack@.reverse()),
            pending: option_view(self.rich_term),
            total: self.total as nat,
        }
    }
}

impl RecordDeserializer {
    /// A cursor before the first field of a record.
    pub fn new(map: Record) -> (r: Self)
        ensures
            r@ == MapState::start(map@),
    {
        let mut source = map.into_entries();
        let ghost entries = source@;
        let total = source.len();
        let mut stack: Vec<(Ident, Term)> = Vec::new();
        while source.len() > 0
            invariant
                source@ == entries.take(source@.len() as int),
                source@.len() <= entries.len(),
                stack@ == entries.skip(source@.len() as int).reverse(),
            decreases source@.len(),
        {
            let entry = source.pop().unwrap();
            stack.push(entry);
            assert(source@ =~= entries.take(source@.len() as int));
            assert(stack@ =~= entries.skip(source@.len() as int).reverse());
        }
        proof {
            assert(stack@.reverse() =~= entries);
        }
        RecordDeserializer { stack, rich_term: None, total }
    }

    /// Pulls the label of the next field, if one is left, and keeps the
    /// field's value at hand.
    pub fn next_key(&mut self) -> (r: Option<String>)
        ensures
            option_view(r) == old(self)@.next_key(),
            final(self)@ == old(self)@.after_key(),
    {
        match self.stack.pop() {
            Some((key, value)) => {
                self.rich_term = Some(value);
                proof {
                    assert(entries_view(self.stack@.reverse()) =~= entries_view(
                        old(self).stack@.reverse(),
                    ).drop_first());
                }
                Some(key.label)
            },
            None => None,
        }
    }

    /// Pulls the value of the field whose label was pulled last.
    pub fn next_value(&mut self) -> (r: Result<Term, RustDeserializationError>)
        ensures
            view_result(r) == old(self)@.next_value(),
            final(self)@ == old(self)@.after_value(),
    {
        match self.rich_term.take() {
            Some(value) => Ok(value),
            None => Err(RustDeserializationError::MissingValue),
        }
    }

    /// The number of fields that are left.
    pub fn size_hint(&self) -> (r: Option<usize>)
        ensures
            r == Some(self@.remaining.len() as usize),
            self@.remaining.len() <= usize::MAX,
    {
        Some(self.stack.len())
    }

    /// Checks that no field is left.
    pub fn end(self) -> (r: Result<(), RustDeserializationError>)
        ensures
            view_result(r) == self@.end(),
    {
        if self.stack.len() == 0 {
            Ok(())
        } else {
            Err(RustDeserializationError::InvalidRecordLength(self.total))
        }
    }
}

/// Ends the visit of a record. A failure of the consumer stands; where the
/// consumer succeeded, no field may be left.
pub fn visit_record<T>(
    deserializer: RecordDeserializer,
    map: Result<T, RustDeserializationError>,
) -> (r: Result<T, RustDeserializationError>)
    ensures
        match map {
            Err(e) => r == Err::<T, RustDeserializationError>(e),
            Ok(v) => match deserializer@.end() {
                Ok(_) => r == Ok::<T, RustDeserializationError>(v),
                Err(e) => r is Err && r->Err_0@ == e,
            },
        },
{
    let value = map?;
    match deserializer.end() {
        Ok(_) => Ok(value),
        Err(e) => Err(e),
    }
}

/// Pulling from a cursor over an array takes elements off its front and
/// leaves the count of the array as it was.
pub proof fn lemma_array_pulls(state: SeqState, pulls: nat)
    ensures
        state.advance_by(pulls).total == state.total,
        pulls <= state.remaining.len() ==> state.advance_by(pulls).remaining
            == state.remaining.skip(pulls as int),
        pulls > state.remaining.len() ==> state.advance_by(pulls).remaining.len() == 0,
    decreases pulls,
{
    if pulls == 0 {
        assert(state.remaining.skip(0) =~= state.remaining);
    } else {
        lemma_array_pulls(state.advance(), (pulls - 1) as nat);
        if pulls <= state.remaining.len() {
            assert(state.remaining.drop_first().skip(pulls - 1) =~= state.remaining.skip(
                pulls as int,
            ));
        }
    }
}

/// A consumer that stops before the last element of an array is told so, with
/// the number of elements that the array had; one that pulls them all, or goes
/// on pulling at the end, is not.
pub proof fn lemma_array_arity(items: Seq<TermView>, pulls: nat)
    ensures
        pulls < items.len() ==> SeqState::start(items).advance_by(pulls).end() == Err::<
            (),
            ErrorView,
        >(ErrorView::InvalidArrayLength(items.len())),
        pulls >= items.len() ==> SeqState::start(items).advance_by(pulls).end() == Ok::<
            (),
            ErrorView,
        >(()),
{
    lemma_array_pulls(SeqState::start(items), pulls);
}

/// Pulling fields from a cursor over a record takes them off its front and
/// leaves the count of the record as it was.
pub proof fn lemma_record_pulls(state: MapState, pulls: nat)
    ensures
        state.advance_by(pulls).total == state.total,
        pulls <= state.remaining.len() ==> state.advance_by(pulls).remaining
            == state.remaining.skip(pulls as int),
        pulls > state.remaining.len() ==> state.advance_by(pulls).remaining.len() == 0,
    decreases pulls,
{
    if pulls == 0 {
        assert(state.remaining.skip(0) =~= state.remaining);
    } else {
        lemma_record_pulls(state.after_key().after_value(), (pulls - 1) as nat);
        if pulls <= state.remaining.len() {
            assert(state.remaining.drop_first().skip(pulls - 1) =~= state.remaining.skip(
                pulls as int,
            ));
        }
    }
}

/// A consumer that stops before the last field of a record is told so, with
/// the number of fields that the record had, whatever the order in which the
/// record lists its fields and whichever of them are left; one that pulls them
/// all is not.
pub proof fn lemma_record_arity(entries: Seq<(Seq<char>, TermView)>, pulls: nat)
    ensures
        pulls < entries.len() ==> MapState::start(entries).advance_by(pulls).end() == Err::<
            (),
            ErrorView,
        >(ErrorView::InvalidRecordLength(entries.len())),
        pulls >= entries.len() ==> MapState::start(entries).advance_by(pulls).end() == Ok::<
            (),
            ErrorView,
        >(()),
{
    lemma_record_pulls(MapState::start(entries), pulls);
}

} // verus!
