//! Records: fields by label, no label twice.

use term_decoder::identifier::{Ident, RawSpan, TermPos};
use term_decoder::term::{Record, Term};

fn labels(r: Record) -> Vec<String> {
    r.into_entries().into_iter().map(|(k, _)| k.label).collect()
}

#[test]
fn a_new_record_is_empty() {
    let r = Record::new();
    assert_eq!(r.len(), 0);
    assert!(r.is_empty());
    assert!(r.into_entries().is_empty());
}

#[test]
fn fields_are_listed_in_the_order_of_their_labels() {
    let mut r = Record::new();
    assert_eq!(r.insert(Ident::from("b"), Term::Null), None);
    assert_eq!(r.insert(Ident::from("a"), Term::Bool(true)), None);
    assert_eq!(r.insert(Ident::from("c"), Term::Bool(false)), None);
    assert_eq!(r.insert(Ident::from("ab"), Term::Bool(false)), None);
    assert_eq!(r.insert(Ident::from(""), Term::Bool(false)), None);
    assert_eq!(r.insert(Ident::from("é"), Term::Bool(false)), None);
    assert_eq!(r.insert(Ident::from("B"), Term::Bool(false)), None);
    assert_eq!(r.len(), 7);
    assert!(!r.is_empty());
    assert_eq!(labels(r), vec!["", "B", "a", "ab", "b", "c", "é"]);
}

#[test]
fn records_of_the_same_fields_are_equal_however_they_were_built() {
    let fields = [
        ("delta", Term::Null),
        ("alpha", Term::Bool(true)),
        ("charlie", Term::Num(3)),
        ("bravo", Term::Str("b".to_string())),
    ];
    let build = |order: &[usize]| {
        let mut r = Record::new();
        for &i in order {
            let value = match &fields[i].1 {
                Term::Null => Term::Null,
                Term::Bool(b) => Term::Bool(*b),
                Term::Num(n) => Term::Num(*n),
                Term::Str(s) => Term::Str(s.clone()),
                _ => unreachable!(),
            };
            r.insert(Ident::from(fields[i].0), value);
        }
        r
    };
    let reference = build(&[0, 1, 2, 3]);
    for order in [[3, 2, 1, 0], [1, 3, 0, 2], [2, 0, 3, 1], [0, 2, 1, 3]] {
        assert_eq!(build(&order), reference);
        assert_eq!(Term::Record(build(&order)), Term::Record(build(&[0, 1, 2, 3])));
    }
    assert_ne!(build(&[0, 1, 2]), reference);
    assert_eq!(
        labels(build(&[2, 0, 3, 1])),
        vec!["alpha", "bravo", "charlie", "delta"]
    );
}

#[test]
fn many_fields_stay_in_order() {
    let mut r = Record::new();
    let mut expected = Vec::new();
    let mut x: u32 = 12345;
    for _ in 0..300 {
        x = x.wrapping_mul(1664525).wrapping_add(1013904223);
        let label = format!("k{}", x % 200);
        let had = expected.contains(&label);
        assert_eq!(r.insert(Ident::from(label.as_str()), Term::Num(x as u64)).is_some(), had);
        if !had {
            expected.push(label);
        }
    }
    expected.sort();
    assert_eq!(r.len(), expected.len());
    assert_eq!(labels(r), expected);
}

#[test]
fn a_field_set_again_keeps_its_place_and_gives_its_value_back() {
    let mut r = Record::new();
    r.insert(Ident::from("a"), Term::Num(1f64.to_bits()));
    r.insert(Ident::from("b"), Term::Num(2f64.to_bits()));
    r.insert(Ident::from("c"), Term::Num(3f64.to_bits()));
    assert_eq!(
        r.insert(Ident::from("b"), Term::Str("new".to_string())),
        Some(Term::Num(2f64.to_bits()))
    );
    assert_eq!(r.len(), 3);
    assert_eq!(
        r.into_entries(),
        vec![
            (Ident::from("a"), Term::Num(1f64.to_bits())),
            (Ident::from("b"), Term::Str("new".to_string())),
            (Ident::from("c"), Term::Num(3f64.to_bits())),
        ]
    );
}

#[test]
fn a_label_is_the_same_field_wherever_it_was_written() {
    let here = TermPos::Written(RawSpan {
        src_id: 1,
        start: 4,
        end: 5,
    });
    let mut r = Record::new();
    r.insert(
        Ident {
            label: "a".to_string(),
            pos: here,
        },
        Term::Null,
    );
    assert_eq!(r.insert(Ident::from("a"), Term::Bool(true)), Some(Term::Null));
    assert_eq!(r.len(), 1);
    let entries = r.into_entries();
    assert_eq!(entries[0].0.pos, here);
    assert_eq!(entries[0].1, Term::Bool(true));
}

#[test]
fn the_kind_of_a_term_has_a_name() {
    assert_eq!(Term::Null.type_of(), Some("Null".to_string()));
    assert_eq!(Term::Bool(false).type_of(), Some("Bool".to_string()));
    assert_eq!(Term::Num(0).type_of(), Some("Num".to_string()));
    assert_eq!(Term::Str(String::new()).type_of(), Some("Str".to_string()));
    assert_eq!(Term::Enum(Ident::from("t")).type_of(), Some("Enum".to_string()));
    assert_eq!(Term::Record(Record::new()).type_of(), Some("Record".to_string()));
    assert_eq!(Term::Array(vec![]).type_of(), Some("Array".to_string()));
    assert_eq!(Term::MetaValue(None).type_of(), Some("Metavalue".to_string()));
    assert_eq!(
        Term::MetaValue(Some(Box::new(Term::Null))).type_of(),
        Some("Metavalue".to_string())
    );
    assert_eq!(Term::Other(Some("Fun".to_string())).type_of(), Some("Fun".to_string()));
    assert_eq!(Term::Other(None).type_of(), None);
}
