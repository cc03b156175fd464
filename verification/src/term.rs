//! Evaluated terms: what is left of an expression once it is evaluated in full.

use vstd::prelude::*;
use crate::identifier::{label_precedence, lemma_label_order, Ident, Precedence};

verus! {

/// A fully evaluated term.
#[derive(Debug, PartialEq)]
pub enum Term {
    Null,
    Bool(bool),
    /// A double-precision number, as its IEEE 754 bit pattern. Two numbers are
    /// equal when their patterns are.
    Num(u64),
    Str(String),
    Enum(Ident),
    Record(Record),
    Array(Vec<Term>),
    /// Metadata around an optional value.
    MetaValue(Option<Box<Term>>),
    /// Any other kind of term, with the name of its kind if it has one.
    Other(Option<String>),
}

/// The fields of a record, by their labels. No label occurs twice, and the
/// fields are kept in the order of their labels, so that records of the same
/// fields are equal however they were built.
#[derive(Debug, PartialEq)]
pub struct Record {
    entries: Vec<(Ident, Term)>,
}

/// What a term stands for: the same cases, over sequences. A number stands
/// for its bit pattern, and an identifier for its label.
pub enum TermView {
    Null,
    Bool(bool),
    Num(u64),
    Str(Seq<char>),
    Enum(Seq<char>),
    Record(Seq<(Seq<char>, TermView)>),
    Array(Seq<TermView>),
    MetaValue(Option<Box<TermView>>),
    Other(Option<Seq<char>>),
}

/// What a term stands for.
pub open spec fn term_view(t: Term) -> TermView
    decreases t,
{
    match t {
        Term::Null => TermView::Null,
        Term::Bool(b) => TermView::Bool(b),
        Term::Num(n) => TermView::Num(n),
        Term::Str(s) => TermView::Str(s@),
        Term::Enum(id) => TermView::Enum(id@),
        Term::Record(r) => TermView::Record(record_view(r)),
        Term::Array(v) => TermView::Array(
            Seq::new(
                v.len() as nat,
                |i: int|
                    if 0 <= i < v.len() {
                        term_view(v[i])
                    } else {
                        TermView::Null
                    },
            ),
        ),
        Term::MetaValue(None) => TermView::MetaValue(None),
        Term::MetaValue(Some(t)) => TermView::MetaValue(Some(Box::new(term_view(*t)))),
        Term::Other(None) => TermView::Other(None),
        Term::Other(Some(s)) => TermView::Other(Some(s@)),
    }
}

/// What a record stands for: its fields, in the order of their labels.
pub closed spec fn record_view(r: Record) -> Seq<(Seq<char>, TermView)>
    decreases r,
{
    Seq::new(
        r.entries.len() as nat,
        |i: int|
            if 0 <= i < r.entries.len() {
                (r.entries[i].0@, term_view(r.entries[i].1))
            } else {
                (Seq::empty(), TermView::Null)
            },
    )
}

impl View for Term {
    type V = TermView;

    open spec fn view(&self) -> TermView {
        term_view(*self)
    }
}

impl View for Record {
    type V = Seq<(Seq<char>, TermView)>;

    open spec fn view(&self) -> Seq<(Seq<char>, TermView)> {
        record_view(*self)
    }
}

/// What a sequence of terms stands for.
pub open spec fn terms_view(terms: Seq<Term>) -> Seq<TermView> {
    Seq::new(terms.len(), |i: int| term_view(terms[i]))
}

/// What a sequence of fields stands for.
pub open spec fn entries_view(entries: Seq<(Ident, Term)>) -> Seq<(Seq<char>, TermView)> {
    Seq::new(entries.len(), |i: int| (entries[i].0@, term_view(entries[i].1)))
}

/// An array stands for what its elements stand for, in their order.
pub proof fn lemma_array_view(items: Vec<Term>)
    ensures
        Term::Array(items)@ == TermView::Array(terms_view(items@)),
{
    assert(Term::Array(items)@->Array_0 =~= terms_view(items@));
}

/// The name of a term's kind, where the kind has one.
pub open spec fn spec_type_of(t: TermView) -> Option<Seq<char>> {
    match t {
        TermView::Null => Some("Null"@),
        TermView::Bool(_) => Some("Bool"@),
        TermView::Num(_) => Some("Num"@),
        TermView::Str(_) => Some("Str"@),
        TermView::Enum(_) => Some("Enum"@),
        TermView::Record(_) => Some("Record"@),
        TermView::Array(_) => Some("Array"@),
        TermView::MetaValue(_) => Some("Metavalue"@),
        TermView::Other(kind) => kind,
    }
}

/// What an optional value stands for.
pub open spec fn option_view<T: View>(o: Option<T>) -> Option<T::V> {
    match o {
        Some(v) => Some(v@),
        None => None,
    }
}

/// Whether fields are in the order of their labels, each label before the next.
pub open spec fn sorted_by_label(entries: Seq<(Seq<char>, TermView)>) -> bool {
    forall|i: int, j: int|
        #![trigger entries[i], entries[j]]
        0 <= i < j < entries.len() ==> label_precedence(entries[i].0, entries[j].0)
            == Precedence::Before
}

/// Whether the field at a place has a given label.
pub open spec fn holds_at(entries: Seq<(Seq<char>, TermView)>, i: int, label: Seq<char>) -> bool {
    0 <= i < entries.len() && entries[i].0 == label
}

/// The mapping that fields make: from each label to the value of the field of
/// that label.
pub open spec fn record_map(entries: Seq<(Seq<char>, TermView)>) -> Map<Seq<char>, TermView> {
    Map::new(
        |label: Seq<char>| exists|i: int| holds_at(entries, i, label),
        |label: Seq<char>| entries[choose|i: int| holds_at(entries, i, label)].1,
    )
}

/// Among fields in the order of their labels, a label has one place at most.
pub proof fn lemma_one_place(entries: Seq<(Seq<char>, TermView)>, i: int, j: int)
    requires
        sorted_by_label(entries),
        0 <= i < entries.len(),
        0 <= j < entries.len(),
        entries[i].0 == entries[j].0,
    ensures
        i == j,
{
    lemma_label_order(entries[i].0, entries[j].0, entries[j].0);
    if i < j {
        assert(label_precedence(entries[i].0, entries[j].0) == Precedence::Before);
    } else if j < i {
        assert(label_precedence(entries[j].0, entries[i].0) == Precedence::Before);
    }
}

/// The mapping that fields in the order of their labels make holds each field
/// under its label.
pub proof fn lemma_map_holds_each(entries: Seq<(Seq<char>, TermView)>, i: int)
    requires
        sorted_by_label(entries),
        0 <= i < entries.len(),
    ensures
        record_map(entries).dom().contains(entries[i].0),
        record_map(entries)[entries[i].0] == entries[i].1,
{
    let label = entries[i].0;
    assert(holds_at(entries, i, label));
    let chosen = choose|k: int| holds_at(entries, k, label);
    lemma_one_place(entries, i, chosen);
}

/// A new value for a field leaves the fields in order, and the mapping is the
/// one that held before, but for that label.
pub proof fn lemma_update_entry(entries: Seq<(Seq<char>, TermView)>, i: int, value: TermView)
    requires
        sorted_by_label(entries),
        0 <= i < entries.len(),
    ensures
        sorted_by_label(entries.update(i, (entries[i].0, value))),
        record_map(entries.update(i, (entries[i].0, value))) == record_map(entries).insert(
            entries[i].0,
            value,
        ),
{
    let label = entries[i].0;
    let after = entries.update(i, (label, value));
    assert forall|a: int, b: int| 0 <= a < b < after.len() implies label_precedence(
        (#[trigger] after[a]).0,
        (#[trigger] after[b]).0,
    ) == Precedence::Before by {
        assert(after[a].0 == entries[a].0);
        assert(after[b].0 == entries[b].0);
    }
    let expected = record_map(entries).insert(label, value);
    assert forall|l: Seq<char>| #[trigger]
        record_map(after).dom().contains(l) == expected.dom().contains(l) by {
        if record_map(after).dom().contains(l) {
            let k = choose|k: int| holds_at(after, k, l);
            assert(holds_at(entries, k, l));
        }
        if expected.dom().contains(l) {
            if l == label {
                assert(holds_at(after, i, l));
            } else {
                let k = choose|k: int| holds_at(entries, k, l);
                assert(holds_at(after, k, l));
            }
        }
    }
    assert forall|l: Seq<char>| #[trigger] record_map(after).dom().contains(l) implies record_map(
        after,
    )[l] == expected[l] by {
        let k = choose|k: int| holds_at(after, k, l);
        lemma_map_holds_each(after, k);
        if l != label {
            assert(holds_at(entries, k, l));
            lemma_map_holds_each(entries, k);
        } else {
            lemma_one_place(after, k, i);
        }
    }
    assert(record_map(after) =~= expected);
}

/// A field put in at the place of its label leaves the fields in order, and
/// the mapping is the one that held before, with the new field.
pub proof fn lemma_insert_entry(
    entries: Seq<(Seq<char>, TermView)>,
    i: int,
    label: Seq<char>,
    value: TermView,
)
    requires
        sorted_by_label(entries),
        0 <= i <= entries.len(),
        forall|k: int|
            0 <= k < i ==> label_precedence((#[trigger] entries[k]).0, label)
                == Precedence::Before,
        i < entries.len() ==> label_precedence(entries[i].0, label) == Precedence::After,
    ensures
        sorted_by_label(entries.insert(i, (label, value))),
        record_map(entries.insert(i, (label, value))) == record_map(entries).insert(label, value),
        !record_map(entries).dom().contains(label),
{
    let after = entries.insert(i, (label, value));
    assert forall|k: int| i <= k < entries.len() implies label_precedence(
        label,
        (#[trigger] entries[k]).0,
    ) == Precedence::Before by {
        lemma_label_order(entries[i].0, label, label);
        if k > i {
            assert(label_precedence(entries[i].0, entries[k].0) == Precedence::Before);
            lemma_label_order(label, entries[i].0, entries[k].0);
        }
    }
    assert forall|a: int, b: int| 0 <= a < b < after.len() implies label_precedence(
        (#[trigger] after[a]).0,
        (#[trigger] after[b]).0,
    ) == Precedence::Before by {
        if b < i {
            assert(after[a] == entries[a] && after[b] == entries[b]);
        } else if b == i {
            assert(after[a] == entries[a]);
        } else if a < i {
            assert(after[a] == entries[a] && after[b] == entries[b - 1]);
        } else if a == i {
            assert(after[b] == entries[b - 1]);
        } else {
            assert(after[a] == entries[a - 1] && after[b] == entries[b - 1]);
        }
    }
    if record_map(entries).dom().contains(label) {
        let k = choose|k: int| holds_at(entries, k, label);
        lemma_label_order(label, label, label);
        assert(label_precedence(entries[k].0, label) == Precedence::Same);
    }
    let expected = record_map(entries).insert(label, value);
    assert forall|l: Seq<char>| #[trigger]
        record_map(after).dom().contains(l) == expected.dom().contains(l) by {
        if record_map(after).dom().contains(l) {
            let k = choose|k: int| holds_at(after, k, l);
            if k < i {
                assert(holds_at(entries, k, l));
            } else if k > i {
                assert(holds_at(entries, k - 1, l));
            }
        }
        if expected.dom().contains(l) {
            if l == label {
                assert(holds_at(after, i, l));
            } else {
                let k = choose|k: int| holds_at(entries, k, l);
                if k < i {
                    assert(holds_at(after, k, l));
                } else {
                    assert(holds_at(after, k + 1, l));
                }
            }
        }
    }
    assert forall|l: Seq<char>| #[trigger] record_map(after).dom().contains(l) implies record_map(
        after,
    )[l] == expected[l] by {
        let k = choose|k: int| holds_at(after, k, l);
        lemma_map_holds_each(after, k);
        if k < i {
            assert(holds_at(entries, k, l));
            lemma_map_holds_each(entries, k);
        } else if k > i {
            assert(holds_at(entries, k - 1, l));
            lemma_map_holds_each(entries, k - 1);
        }
    }
    assert(record_map(after) =~= expected);
}

/// Fields in the order of their labels are determined by the mapping they
/// make: in whatever order the fields of a record came, the record is the same.
pub proof fn lemma_fields_are_determined(
    first: Seq<(Seq<char>, TermView)>,
    second: Seq<(Seq<char>, TermView)>,
)
    requires
        sorted_by_label(first),
        sorted_by_label(second),
        record_map(first) == record_map(second),
    ensures
        first == second,
    decreases first.len(),
{
    if first.len() == 0 {
        if second.len() > 0 {
            lemma_map_holds_each(second, 0);
        }
        assert(first =~= second);
    } else if second.len() == 0 {
        lemma_map_holds_each(first, 0);
    } else {
        lemma_map_holds_each(first, 0);
        lemma_map_holds_each(second, 0);
        let i = choose|i: int| holds_at(first, i, second[0].0);
        let j = choose|j: int| holds_at(second, j, first[0].0);
        lemma_label_order(first[0].0, second[0].0, first[0].0);
        if i > 0 && j > 0 {
            assert(label_precedence(first[0].0, first[i].0) == Precedence::Before);
            assert(label_precedence(second[0].0, second[j].0) == Precedence::Before);
        }
        assert(first[0].0 == second[0].0);
        assert(first[0] == second[0]);
        lemma_rest_of_fields(first);
        lemma_rest_of_fields(second);
        lemma_fields_are_determined(first.drop_first(), second.drop_first());
        assert(first =~= seq![first[0]] + first.drop_first());
        assert(second =~= seq![second[0]] + second.drop_first());
    }
}

/// The order in which two fields of different labels are set is without
/// effect on the record.
pub proof fn lemma_order_of_setting_is_irrelevant(
    start: Seq<(Seq<char>, TermView)>,
    one_way: Seq<(Seq<char>, TermView)>,
    other_way: Seq<(Seq<char>, TermView)>,
    first: (Seq<char>, TermView),
    second: (Seq<char>, TermView),
)
    requires
        first.0 != second.0,
        sorted_by_label(one_way),
        sorted_by_label(other_way),
        record_map(one_way) == record_map(start).insert(first.0, first.1).insert(
            second.0,
            second.1,
        ),
        record_map(other_way) == record_map(start).insert(second.0, second.1).insert(
            first.0,
            first.1,
        ),
    ensures
        one_way == other_way,
{
    assert(record_map(one_way) =~= record_map(other_way));
    lemma_fields_are_determined(one_way, other_way);
}

/// Without their first, fields in the order of their labels are in order
/// still and make the mapping without the first label.
proof fn lemma_rest_of_fields(entries: Seq<(Seq<char>, TermView)>)
    requires
        sorted_by_label(entries),
        entries.len() > 0,
    ensures
        sorted_by_label(entries.drop_first()),
        record_map(entries.drop_first()) == record_map(entries).remove(entries[0].0),
{
    let rest = entries.drop_first();
    assert forall|a: int, b: int| 0 <= a < b < rest.len() implies label_precedence(
        (#[trigger] rest[a]).0,
        (#[trigger] rest[b]).0,
    ) == Precedence::Before by {
        assert(rest[a] == entries[a + 1] && rest[b] == entries[b + 1]);
    }
    let expected = record_map(entries).remove(entries[0].0);
    assert forall|l: Seq<char>| #[trigger]
        record_map(rest).dom().contains(l) == expected.dom().contains(l) by {
        if record_map(rest).dom().contains(l) {
            let k = choose|k: int| holds_at(rest, k, l);
            assert(holds_at(entries, k + 1, l));
            if l == entries[0].0 {
                lemma_one_place(entries, 0, k + 1);
            }
        }
        if expected.dom().contains(l) {
            let k = choose|k: int| holds_at(entries, k, l);
            assert(holds_at(rest, k - 1, l));
        }
    }
    assert forall|l: Seq<char>| #[trigger] record_map(rest).dom().contains(l) implies record_map(
        rest,
    )[l] == expected[l] by {
        let k = choose|k: int| holds_at(rest, k, l);
        lemma_map_holds_each(rest, k);
        assert(holds_at(entries, k + 1, l));
        lemma_map_holds_each(entries, k + 1);
    }
    assert(record_map(rest) =~= expected);
}

impl Term {
    /// The name of this term's kind, where the kind has one.
    pub fn type_of(&self) -> (r: Option<String>)
        ensures
            r.is_some() == spec_type_of(self@).is_some(),
            r.is_some() ==> r.unwrap()@ == spec_type_of(self@).unwrap(),
    {
        match self {
            Term::Null => Some("Null".to_owned()),
            Term::Bool(_) => Some("Bool".to_owned()),
            Term::Num(_) => Some("Num".to_owned()),
            Term::Str(_) => Some("Str".to_owned()),
            Term::Enum(_) => Some("Enum".to_owned()),
            Term::Record(_) => Some("Record".to_owned()),
            Term::Array(_) => Some("Array".to_owned()),
            Term::MetaValue(_) => Some("Metavalue".to_owned()),
            Term::Other(None) => None,
            Term::Other(Some(kind)) => Some(kind.clone()),
        }
    }
}

impl Record {
    #[verifier::type_invariant]
    spec fn in_order(self) -> bool {
        forall|i: int, j: int|
            #![trigger self.entries[i], self.entries[j]]
            0 <= i < j < self.entries.len() ==> label_precedence(
                self.entries[i].0@,
                self.entries[j].0@,
            ) == Precedence::Before
    }

    /// A record without fields.
    pub fn new() -> (r: Record)
        ensures
            r@.len() == 0,
    {
        Record { entries: Vec::new() }
    }

    /// The number of fields.
    pub fn len(&self) -> (n: usize)
        ensures
            n == self@.len(),
            sorted_by_label(self@),
    {
        proof {
            use_type_invariant(self);
            assert forall|i: int, j: int| 0 <= i < j < self@.len() implies label_precedence(
                (#[trigger] self@[i]).0,
                (#[trigger] self@[j]).0,
            ) == Precedence::Before by {
                assert(self@[i].0 == self.entries[i].0@ && self@[j].0 == self.entries[j].0@);
            }
        }
        self.entries.len()
    }

    /// Whether the record has no field.
    pub fn is_empty(&self) -> (b: bool)
        ensures
            b == (self@.len() == 0),
    {
        self.entries.len() == 0
    }

    /// Sets a field. Where the record had a field of that label, the field gets
    /// the new value and the value it had is returned.
    pub fn insert(&mut self, key: Ident, value: Term) -> (r: Option<Term>)
        ensures
            sorted_by_label(final(self)@),
            record_map(final(self)@) == record_map(old(self)@).insert(key@, value@),
            option_view(r) == (if record_map(old(self)@).dom().contains(key@) {
                Some(record_map(old(self)@)[key@])
            } else {
                None
            }),
    {
        let n = self.len();
        let ghost before = self@;
        let mut i: usize = 0;
        let mut same = false;
        while i < n
            invariant_except_break
                !same,
            invariant
                *self == *old(self),
                n == self.entries.len(),
                i <= n,
                forall|k: int|
                    0 <= k < i ==> label_precedence((#[trigger] self.entries[k]).0@, key@)
                        == Precedence::Before,
            ensures
                same ==> i < n && label_precedence(self.entries[i as int].0@, key@)
                    == Precedence::Same,
                !same && i < n ==> label_precedence(self.entries[i as int].0@, key@)
                    == Precedence::After,
            decreases n - i,
        {
            match self.entries[i].0.precedence(&key) {
                Precedence::Before => {
                    i += 1;
                },
                Precedence::Same => {
                    same = true;
                    break ;
                },
                Precedence::After => {
                    break ;
                },
            }
        }
        let mut entries: Vec<(Ident, Term)> = Vec::new();
        core::mem::swap(&mut self.entries, &mut entries);
        proof {
            assert forall|k: int| 0 <= k < i implies label_precedence(
                (#[trigger] before[k]).0,
                key@,
            ) == Precedence::Before by {
                assert(before[k].0 == entries[k].0@);
            }
        }
        let previous = if same {
            let (label, previous) = entries.remove(i);
            proof {
                lemma_label_order(label@, key@, key@);
                lemma_update_entry(before, i as int, value@);
                lemma_map_holds_each(before, i as int);
            }
            entries.insert(i, (label, value));
            proof {
                assert(entries_view(entries@) =~= before.update(i as int, (key@, value@)));
            }
            Some(previous)
        } else {
            proof {
                lemma_insert_entry(before, i as int, key@, value@);
            }
            entries.insert(i, (key, value));
            proof {
                assert(entries_view(entries@) =~= before.insert(i as int, (key@, value@)));
            }
            None
        };
        proof {
            let after = entries_view(entries@);
            assert forall|a: int, b: int| 0 <= a < b < entries.len() implies label_precedence(
                (#[trigger] entries[a]).0@,
                (#[trigger] entries[b]).0@,
            ) == Precedence::Before by {
                assert(after[a].0 == entries[a].0@ && after[b].0 == entries[b].0@);
            }
        }
        core::mem::swap(&mut self.entries, &mut entries);
        proof {
            assert(self@ =~= entries_view(self.entries@));
        }
        previous
    }

    /// The fields, in the order of their labels.
    pub fn into_entries(self) -> (entries: Vec<(Ident, Term)>)
        ensures
            entries_view(entries@) == self@,
            sorted_by_label(self@),
    {
        let _ = self.len();
        proof {
            assert(entries_view(self.entries@) =~= self@);
        }
        self.entries
    }
}

} // verus!
