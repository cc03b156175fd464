//! How each kind of term is read for each target.

use term_decoder::deserialize::{unwrap_term, Target, Visit};
use term_decoder::error::RustDeserializationError;
use term_decoder::identifier::{Ident, RawSpan, TermPos};
use term_decoder::term::{Record, Term};

fn n(x: f64) -> Term {
    Term::Num(x.to_bits())
}

fn s(x: &str) -> Term {
    Term::Str(x.to_string())
}

fn rec(fields: Vec<(&str, Term)>) -> Term {
    let mut r = Record::new();
    for (label, value) in fields {
        r.insert(Ident::from(label), value);
    }
    Term::Record(r)
}

fn wrap(t: Term, layers: usize) -> Term {
    let mut t = t;
    for _ in 0..layers {
        t = Term::MetaValue(Some(Box::new(t)));
    }
    t
}

fn invalid(expected: &str, occurred: &str) -> RustDeserializationError {
    RustDeserializationError::InvalidType {
        expected: expected.to_string(),
        occurred: occurred.to_string(),
    }
}

/// One term of each kind, with the name of the kind.
fn one_of_each() -> Vec<(Term, &'static str)> {
    vec![
        (Term::Null, "Null"),
        (Term::Bool(true), "Bool"),
        (n(1.5), "Num"),
        (s("text"), "Str"),
        (Term::Enum(Ident::from("tag")), "Enum"),
        (rec(vec![("a", Term::Null), ("b", Term::Null)]), "Record"),
        (Term::Array(vec![Term::Null]), "Array"),
        (Term::Other(Some("Fun".to_string())), "Fun"),
        (Term::Other(Some("Label".to_string())), "Label"),
        (Term::Other(None), "Other"),
    ]
}

const ALL_TARGETS: [Target; 31] = [
    Target::Any,
    Target::Bool,
    Target::I8,
    Target::I16,
    Target::I32,
    Target::I64,
    Target::I128,
    Target::U8,
    Target::U16,
    Target::U32,
    Target::U64,
    Target::U128,
    Target::F32,
    Target::F64,
    Target::Char,
    Target::Str,
    Target::Text,
    Target::Bytes,
    Target::ByteBuf,
    Target::Optional,
    Target::Unit,
    Target::UnitStruct,
    Target::NewtypeStruct,
    Target::Sequence,
    Target::Tuple,
    Target::TupleStruct,
    Target::Mapping,
    Target::Struct,
    Target::Enum,
    Target::Identifier,
    Target::IgnoredAny,
];

fn looks_through_metadata(target: Target) -> bool {
    !matches!(
        target,
        Target::Any | Target::IgnoredAny | Target::NewtypeStruct
    )
}

/// What a visit holds, written out, so that two visits can be compared.
fn show(v: Result<Visit, RustDeserializationError>) -> String {
    match v {
        Ok(Visit::Array(mut seq)) => {
            let mut items = Vec::new();
            while let Some(t) = seq.next_element() {
                items.push(t);
            }
            format!("Array({:?})", items)
        }
        Ok(Visit::Record(mut map)) => {
            let mut items = Vec::new();
            while let Some(k) = map.next_key() {
                items.push((k, map.next_value()));
            }
            format!("Record({:?})", items)
        }
        Ok(Visit::Variant(e)) => {
            let (tag, content) = e.variant();
            format!("Variant({:?}, {:?})", tag, content.newtype_variant())
        }
        other => format!("{:?}", other),
    }
}

#[test]
fn metadata_is_stripped_down_to_the_term_inside() {
    assert_eq!(unwrap_term(Term::Null), Ok(Term::Null));
    assert_eq!(unwrap_term(wrap(n(3.0), 1)), Ok(n(3.0)));
    assert_eq!(unwrap_term(wrap(s("x"), 5)), Ok(s("x")));
    assert_eq!(
        unwrap_term(wrap(Term::Array(vec![wrap(Term::Null, 1)]), 2)),
        Ok(Term::Array(vec![wrap(Term::Null, 1)]))
    );
    assert_eq!(
        unwrap_term(Term::MetaValue(None)),
        Err(RustDeserializationError::EmptyMetaValue)
    );
    assert_eq!(
        unwrap_term(wrap(Term::MetaValue(None), 4)),
        Err(RustDeserializationError::EmptyMetaValue)
    );
    assert_eq!(unwrap_term(wrap(Term::Other(None), 1000)), Ok(Term::Other(None)));
}

#[test]
fn a_boolean_is_read_from_a_boolean_only() {
    assert_eq!(Term::Bool(true).deserialize_bool(), Ok(true));
    assert_eq!(Term::Bool(false).deserialize_bool(), Ok(false));
    for (term, kind) in one_of_each() {
        if kind != "Bool" {
            assert_eq!(term.deserialize_bool(), Err(invalid("Bool", kind)));
        }
    }
}

#[test]
fn a_text_is_read_from_a_text_only() {
    assert_eq!(s("hello").deserialize_string(), Ok("hello".to_string()));
    assert_eq!(s("").deserialize_string(), Ok(String::new()));
    for (term, kind) in one_of_each() {
        if kind != "Str" {
            assert_eq!(term.deserialize_string(), Err(invalid("Str", kind)));
        }
    }
}

#[test]
fn nothing_is_read_from_null_only() {
    assert_eq!(Term::Null.deserialize_unit(), Ok(()));
    for (term, kind) in one_of_each() {
        if kind != "Null" {
            assert_eq!(term.deserialize_unit(), Err(invalid("Null", kind)));
        }
    }
}

#[test]
fn a_sequence_is_read_from_an_array_only() {
    let mut seq = Term::Array(vec![n(1.0), s("two")])
        .deserialize_seq()
        .unwrap();
    assert_eq!(seq.next_element(), Some(n(1.0)));
    assert_eq!(seq.next_element(), Some(s("two")));
    assert_eq!(seq.next_element(), None);
    for (term, kind) in one_of_each() {
        if kind != "Array" {
            assert_eq!(term.deserialize_seq().err(), Some(invalid("Array", kind)));
        }
    }
}

#[test]
fn a_mapping_is_read_from_a_record_only() {
    let mut map = rec(vec![("k", n(1.0))]).deserialize_map().unwrap();
    assert_eq!(map.next_key(), Some("k".to_string()));
    assert_eq!(map.next_value(), Ok(n(1.0)));
    assert_eq!(map.next_key(), None);
    for (term, kind) in one_of_each() {
        if kind != "Record" {
            assert_eq!(term.deserialize_map().err(), Some(invalid("Record", kind)));
        }
    }
}

#[test]
fn a_structure_is_read_from_an_array_or_a_record() {
    assert!(matches!(
        Term::Array(vec![n(1.0)]).deserialize_struct(),
        Ok(Visit::Array(_))
    ));
    assert!(matches!(
        rec(vec![("a", n(1.0))]).deserialize_struct(),
        Ok(Visit::Record(_))
    ));
    for (term, kind) in one_of_each() {
        if kind != "Record" && kind != "Array" {
            assert_eq!(term.deserialize_struct().err(), Some(invalid("Record", kind)));
        }
    }
}

#[test]
fn a_structure_is_read_by_place_from_an_array() {
    let term = Term::Array(vec![n(10.0), s("x"), Term::Bool(true)]);
    let mut seq = match term.deserialize_struct() {
        Ok(Visit::Array(seq)) => seq,
        other => panic!("{:?}", other),
    };
    let a = seq.next_element().unwrap().deserialize_i32();
    let b = seq.next_element().unwrap().deserialize_string();
    assert_eq!(a, Ok(10));
    assert_eq!(b, Ok("x".to_string()));
    assert_eq!(
        seq.end(),
        Err(RustDeserializationError::InvalidArrayLength(3))
    );
}

#[test]
fn bytes_are_read_from_a_text_or_an_array() {
    assert_eq!(
        show(s("bytes").deserialize_byte_buf()),
        "Ok(Text(\"bytes\"))"
    );
    assert_eq!(
        show(Term::Array(vec![n(1.0), n(2.0)]).deserialize_byte_buf()),
        show(Term::Array(vec![n(1.0), n(2.0)]).deserialize_seq().map(Visit::Array))
    );
    for (term, kind) in one_of_each() {
        if kind != "Str" && kind != "Array" {
            assert_eq!(
                term.deserialize_byte_buf().err(),
                Some(invalid("Str or Array", kind))
            );
        }
    }
}

#[test]
fn an_optional_value_is_missing_where_the_term_is_null() {
    assert_eq!(Term::Null.deserialize_option(), Ok(None));
    assert_eq!(wrap(Term::Null, 3).deserialize_option(), Ok(None));
    assert_eq!(Term::Bool(true).deserialize_option(), Ok(Some(Term::Bool(true))));
    assert_eq!(wrap(n(2.0), 2).deserialize_option(), Ok(Some(n(2.0))));
    assert_eq!(
        Term::Other(None).deserialize_option(),
        Ok(Some(Term::Other(None)))
    );
    assert_eq!(
        Term::MetaValue(None).deserialize_option(),
        Err(RustDeserializationError::EmptyMetaValue)
    );
}

#[test]
fn whatever_is_there_is_read_by_its_kind() {
    assert_eq!(show(Term::Null.deserialize_any()), "Ok(Unit)");
    assert_eq!(show(Term::Bool(true).deserialize_any()), "Ok(Bool(true))");
    assert_eq!(
        show(n(2.5).deserialize_any()),
        format!("Ok(F64({}))", 2.5f64.to_bits())
    );
    assert_eq!(show(s("x").deserialize_any()), "Ok(Text(\"x\"))");
    assert_eq!(
        show(Term::Enum(Ident::from("tag")).deserialize_any()),
        "Variant(\"tag\", Err(MissingValue))"
    );
    assert_eq!(
        show(rec(vec![("a", Term::Null)]).deserialize_any()),
        "Record([(\"a\", Ok(Null))])"
    );
    assert_eq!(
        show(Term::Array(vec![Term::Null, Term::Bool(false)]).deserialize_any()),
        "Array([Null, Bool(false)])"
    );
    assert_eq!(
        Term::Other(Some("Fun".to_string())).deserialize_any().err(),
        Some(RustDeserializationError::UnimplementedType {
            occurred: "Fun".to_string()
        })
    );
    assert_eq!(
        Term::Other(None).deserialize_any().err(),
        Some(RustDeserializationError::UnimplementedType {
            occurred: "Other".to_string()
        })
    );
}

#[test]
fn metadata_is_read_as_nothing_where_whatever_is_there_is_asked_for() {
    assert_eq!(show(Term::MetaValue(None).deserialize_any()), "Ok(Unit)");
    assert_eq!(show(wrap(n(10.0), 1).deserialize_any()), "Ok(Unit)");
    assert_eq!(show(wrap(s("x"), 3).deserialize_any()), "Ok(Unit)");
    assert_eq!(
        show(wrap(Term::Other(None), 1).deserialize_any()),
        "Ok(Unit)"
    );
    assert_eq!(
        show(wrap(n(10.0), 1).deserialize(Target::Any)),
        "Ok(Unit)"
    );
}

#[test]
fn a_variant_is_read_from_a_tag_or_a_record_of_one_field() {
    let (tag, content) = Term::Enum(Ident::from("foo"))
        .deserialize_enum()
        .unwrap()
        .variant();
    assert_eq!(tag, "foo");
    assert_eq!(content.unit_variant(), Ok(()));

    let (tag, content) = rec(vec![("bar", s("y"))])
        .deserialize_enum()
        .unwrap()
        .variant();
    assert_eq!(tag, "bar");
    assert_eq!(content.newtype_variant(), Ok(s("y")));

    let (tag, content) = wrap(rec(vec![("bar", wrap(n(1.0), 1))]), 2)
        .deserialize_enum()
        .unwrap()
        .variant();
    assert_eq!(tag, "bar");
    assert_eq!(content.newtype_variant(), Ok(wrap(n(1.0), 1)));
}

#[test]
fn a_variant_is_not_read_from_a_record_of_no_or_several_fields() {
    assert_eq!(
        rec(vec![]).deserialize_enum().err(),
        Some(invalid("single-key record", "record without keys"))
    );
    assert_eq!(
        rec(vec![("a", Term::Null), ("b", Term::Null)])
            .deserialize_enum()
            .err(),
        Some(invalid("single-key record", "record with multiple keys"))
    );
    assert_eq!(
        rec(vec![("a", Term::Null), ("b", Term::Null), ("c", Term::Null)])
            .deserialize_enum()
            .err(),
        Some(invalid("single-key record", "record with multiple keys"))
    );
}

#[test]
fn a_variant_is_not_read_from_other_kinds() {
    for (term, kind) in one_of_each() {
        if kind != "Record" && kind != "Enum" {
            assert_eq!(
                term.deserialize_enum().err(),
                Some(invalid("enum tag or record", kind))
            );
        }
    }
    assert_eq!(
        Term::MetaValue(None).deserialize_enum().err(),
        Some(RustDeserializationError::EmptyMetaValue)
    );
}

fn content_of(payload: Term) -> term_decoder::deserialize::VariantDeserializer {
    rec(vec![("v", payload)])
        .deserialize_enum()
        .unwrap()
        .variant()
        .1
}

fn bare() -> term_decoder::deserialize::VariantDeserializer {
    Term::Enum(Ident::from("v"))
        .deserialize_enum()
        .unwrap()
        .variant()
        .1
}

#[test]
fn a_variant_that_carries_nothing_takes_null_at_most() {
    assert_eq!(bare().unit_variant(), Ok(()));
    assert_eq!(content_of(Term::Null).unit_variant(), Ok(()));
    assert_eq!(content_of(wrap(Term::Null, 2)).unit_variant(), Ok(()));
    assert_eq!(
        content_of(n(1.0)).unit_variant(),
        Err(invalid("Null", "Num"))
    );
    assert_eq!(
        content_of(Term::Array(vec![])).unit_variant(),
        Err(invalid("Null", "Array"))
    );
    assert_eq!(
        content_of(Term::MetaValue(None)).unit_variant(),
        Err(RustDeserializationError::EmptyMetaValue)
    );
}

#[test]
fn a_variant_of_one_value_needs_the_value() {
    assert_eq!(
        bare().newtype_variant(),
        Err(RustDeserializationError::MissingValue)
    );
    assert_eq!(content_of(n(4.0)).newtype_variant(), Ok(n(4.0)));
    assert_eq!(
        content_of(Term::MetaValue(None)).newtype_variant(),
        Ok(Term::MetaValue(None))
    );
}

#[test]
fn a_variant_of_values_by_place_is_read_from_an_array() {
    assert_eq!(show(content_of(Term::Array(vec![])).tuple_variant()), "Ok(Unit)");
    assert_eq!(
        show(content_of(wrap(Term::Array(vec![]), 1)).tuple_variant()),
        "Ok(Unit)"
    );
    assert_eq!(
        show(content_of(Term::Array(vec![n(1.0), s("b")])).tuple_variant()),
        format!("Array({:?})", vec![n(1.0), s("b")])
    );
    assert_eq!(
        show(content_of(wrap(Term::Array(vec![Term::Null]), 3)).tuple_variant()),
        "Array([Null])"
    );
    assert_eq!(
        bare().tuple_variant().err(),
        Some(RustDeserializationError::MissingValue)
    );
    assert_eq!(
        content_of(Term::MetaValue(None)).tuple_variant().err(),
        Some(RustDeserializationError::EmptyMetaValue)
    );
    for (term, kind) in one_of_each() {
        if kind != "Array" {
            assert_eq!(
                content_of(term).tuple_variant().err(),
                Some(invalid("Array variant", kind))
            );
        }
    }
}

#[test]
fn a_variant_of_values_by_place_is_checked_for_left_overs() {
    let mut seq = match content_of(Term::Array(vec![n(1.0), n(2.0)])).tuple_variant() {
        Ok(Visit::Array(seq)) => seq,
        other => panic!("{:?}", other),
    };
    assert_eq!(seq.next_element(), Some(n(1.0)));
    assert_eq!(
        seq.end(),
        Err(RustDeserializationError::InvalidArrayLength(2))
    );
}

#[test]
fn a_variant_of_values_by_name_is_read_from_a_record() {
    let mut map = content_of(rec(vec![("x", n(1.0)), ("y", n(2.0))]))
        .struct_variant()
        .unwrap();
    assert_eq!(map.next_key(), Some("x".to_string()));
    assert_eq!(map.next_value(), Ok(n(1.0)));
    assert_eq!(
        map.end(),
        Err(RustDeserializationError::InvalidRecordLength(2))
    );
    assert!(content_of(wrap(rec(vec![]), 2)).struct_variant().is_ok());
    assert_eq!(
        bare().struct_variant().err(),
        Some(RustDeserializationError::MissingValue)
    );
    assert_eq!(
        content_of(Term::MetaValue(None)).struct_variant().err(),
        Some(RustDeserializationError::EmptyMetaValue)
    );
    for (term, kind) in one_of_each() {
        if kind != "Record" {
            assert_eq!(
                content_of(term).struct_variant().err(),
                Some(invalid("Array variant", kind))
            );
        }
    }
}

#[test]
fn a_term_is_passed_on_whole_to_what_a_wrapper_holds() {
    for (term, _) in one_of_each() {
        let shown = format!("Ok(Newtype({:?}))", term);
        assert_eq!(show(term.deserialize(Target::NewtypeStruct)), shown);
    }
    assert_eq!(
        show(wrap(n(1.0), 2).deserialize(Target::NewtypeStruct)),
        format!("Ok(Newtype({:?}))", wrap(n(1.0), 2))
    );
    assert_eq!(
        show(Term::MetaValue(None).deserialize(Target::NewtypeStruct)),
        "Ok(Newtype(MetaValue(None)))"
    );
}

#[test]
fn a_term_that_is_thrown_away_is_not_looked_at() {
    for (term, _) in one_of_each() {
        assert_eq!(show(term.deserialize(Target::IgnoredAny)), "Ok(Unit)");
    }
    assert_eq!(
        show(Term::MetaValue(None).deserialize(Target::IgnoredAny)),
        "Ok(Unit)"
    );
    assert_eq!(
        show(wrap(Term::Other(None), 2).deserialize(Target::IgnoredAny)),
        "Ok(Unit)"
    );
}

#[test]
fn targets_that_read_alike_read_alike() {
    let same = [
        (Target::Char, Target::Text),
        (Target::Str, Target::Text),
        (Target::Identifier, Target::Text),
        (Target::Bytes, Target::ByteBuf),
        (Target::UnitStruct, Target::Unit),
        (Target::Tuple, Target::Sequence),
        (Target::TupleStruct, Target::Sequence),
    ];
    for (a, b) in same {
        for layers in 0..3 {
            for i in 0..one_of_each().len() {
                let first = wrap(one_of_each().remove(i).0, layers).deserialize(a);
                let second = wrap(one_of_each().remove(i).0, layers).deserialize(b);
                assert_eq!(show(first), show(second));
            }
        }
    }
}

#[test]
fn each_target_hands_out_its_own_visit() {
    let x = 300.5f64;
    let visit = |target| show(n(x).deserialize(target));
    assert_eq!(visit(Target::I8), "Ok(I8(127))");
    assert_eq!(visit(Target::I16), "Ok(I16(301))");
    assert_eq!(visit(Target::I32), "Ok(I32(301))");
    assert_eq!(visit(Target::I64), "Ok(I64(301))");
    assert_eq!(visit(Target::I128), "Ok(I128(301))");
    assert_eq!(visit(Target::U8), "Ok(U8(255))");
    assert_eq!(visit(Target::U16), "Ok(U16(301))");
    assert_eq!(visit(Target::U32), "Ok(U32(301))");
    assert_eq!(visit(Target::U64), "Ok(U64(301))");
    assert_eq!(visit(Target::U128), "Ok(U128(301))");
    assert_eq!(visit(Target::F32), format!("Ok(F32({}))", (x as f32).to_bits()));
    assert_eq!(visit(Target::F64), format!("Ok(F64({}))", x.to_bits()));
    assert_eq!(show(Term::Bool(true).deserialize(Target::Bool)), "Ok(Bool(true))");
    assert_eq!(show(s("c").deserialize(Target::Char)), "Ok(Text(\"c\"))");
    assert_eq!(show(Term::Null.deserialize(Target::Unit)), "Ok(Unit)");
    assert_eq!(show(Term::Null.deserialize(Target::Optional)), "Ok(Absent)");
    assert_eq!(
        show(n(1.0).deserialize(Target::Optional)),
        format!("Ok(Present({:?}))", n(1.0))
    );
    assert_eq!(
        show(Term::Array(vec![Term::Null]).deserialize(Target::Sequence)),
        "Array([Null])"
    );
    assert_eq!(
        show(rec(vec![("a", Term::Null)]).deserialize(Target::Mapping)),
        "Record([(\"a\", Ok(Null))])"
    );
    assert_eq!(
        show(rec(vec![("a", Term::Null)]).deserialize(Target::Struct)),
        "Record([(\"a\", Ok(Null))])"
    );
    assert_eq!(
        show(rec(vec![("a", Term::Null)]).deserialize(Target::Enum)),
        "Variant(\"a\", Ok(Null))"
    );
}

#[test]
fn metadata_around_a_number_changes_nothing() {
    for layers in 0..6 {
        for x in [0.0, 10.0, -10.4, 2.5, 1e10, f64::INFINITY] {
            assert_eq!(wrap(n(x), layers).deserialize_i8(), n(x).deserialize_i8());
            assert_eq!(wrap(n(x), layers).deserialize_i16(), n(x).deserialize_i16());
            assert_eq!(wrap(n(x), layers).deserialize_u32(), n(x).deserialize_u32());
            assert_eq!(wrap(n(x), layers).deserialize_i64(), n(x).deserialize_i64());
            assert_eq!(wrap(n(x), layers).deserialize_u128(), n(x).deserialize_u128());
            assert_eq!(wrap(n(x), layers).deserialize_f32(), Ok((x as f32).to_bits()));
            assert_eq!(wrap(n(x), layers).deserialize_f64(), Ok(x.to_bits()));
        }
    }
    assert_eq!(wrap(n(10.0), 1).deserialize_f64().map(f64::from_bits), Ok(10.0));
}

#[test]
fn metadata_changes_nothing_for_any_target_that_looks_through_it() {
    for target in ALL_TARGETS {
        if !looks_through_metadata(target) {
            continue;
        }
        for i in 0..one_of_each().len() {
            let plain = show(one_of_each().remove(i).0.deserialize(target));
            for layers in 1..4 {
                let wrapped = show(wrap(one_of_each().remove(i).0, layers).deserialize(target));
                assert_eq!(wrapped, plain, "{:?}", target);
            }
        }
    }
}

#[test]
fn metadata_around_nothing_fails_as_empty_metadata() {
    for target in ALL_TARGETS {
        for layers in 0..4 {
            let outcome = wrap(Term::MetaValue(None), layers).deserialize(target);
            if looks_through_metadata(target) {
                assert_eq!(
                    outcome.err(),
                    Some(RustDeserializationError::EmptyMetaValue),
                    "{:?}",
                    target
                );
            } else {
                assert!(outcome.is_ok(), "{:?}", target);
            }
        }
    }
    assert_eq!(
        Term::MetaValue(None).deserialize_bool(),
        Err(RustDeserializationError::EmptyMetaValue)
    );
    assert_eq!(
        Term::MetaValue(None).deserialize_unit(),
        Err(RustDeserializationError::EmptyMetaValue)
    );
    assert_eq!(
        Term::MetaValue(None).deserialize_u8(),
        Err(RustDeserializationError::EmptyMetaValue)
    );
}

#[test]
fn a_term_read_twice_reads_the_same() {
    for target in ALL_TARGETS {
        for layers in 0..2 {
            for i in 0..one_of_each().len() {
                let first = show(wrap(one_of_each().remove(i).0, layers).deserialize(target));
                let second = show(wrap(one_of_each().remove(i).0, layers).deserialize(target));
                assert_eq!(first, second);
            }
        }
    }
}

#[test]
fn where_a_label_was_written_changes_nothing() {
    let at = |label: &str, start| Ident {
        label: label.to_string(),
        pos: TermPos::Written(RawSpan {
            src_id: 2,
            start,
            end: start + 1,
        }),
    };
    let with = |start| {
        let mut r = Record::new();
        r.insert(at("k", start), Term::Enum(at("tag", start + 7)));
        Term::Record(r)
    };
    for target in ALL_TARGETS {
        let first = with(1).deserialize(target);
        let second = with(50).deserialize(target);
        match (first, second) {
            (Ok(Visit::Variant(a)), Ok(Visit::Variant(b))) => {
                let (a, _) = a.variant();
                let (b, _) = b.variant();
                assert_eq!(a, b);
            }
            (Ok(Visit::Record(mut a)), Ok(Visit::Record(mut b))) => {
                assert_eq!(a.next_key(), b.next_key());
                assert_eq!(a.next_value(), b.next_value());
            }
            (Ok(Visit::Present(a)), Ok(Visit::Present(b))) => assert_eq!(a, b),
            (Ok(Visit::Newtype(a)), Ok(Visit::Newtype(b))) => assert_eq!(a, b),
            (a, b) => assert_eq!(show(a), show(b)),
        }
    }
    let (tag, _) = Term::Enum(at("tag", 9)).deserialize_enum().unwrap().variant();
    assert_eq!(tag, "tag");
}

#[test]
fn a_term_that_stands_for_no_value_is_never_nothing() {
    for kind in ["Fun", "Label", "SealingKey"] {
        assert_eq!(
            Term::Other(Some(kind.to_string())).deserialize_unit(),
            Err(invalid("Null", kind))
        );
        assert_eq!(
            wrap(Term::Other(Some(kind.to_string())), 2).deserialize_unit(),
            Err(invalid("Null", kind))
        );
    }
    assert_eq!(
        Term::Other(None).deserialize_unit(),
        Err(invalid("Null", "Other"))
    );
}
