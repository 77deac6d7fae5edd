use alux::shape::algebra::{FieldAlg, ShapeAlg, Words};
use alux::shape::description::Description as Described;
use alux::shape::derived::{ShapeExt, ShapeTaggedExt};
use alux::shape::edge::ShapeOf;
use alux::shape::layout::{
    choice_of, layout_of, layout_shape, product_of, tagging, AlternativeLayout, Held, LayoutBody, LayoutRefusal,
    MemberLayout, Tagging,
};
use alux::shape::program::ShapeDeclareExt;
use alux::shape::spell::{words_of, Spelling};
use std::collections::{BTreeMap, HashMap};

const DISPLAY_NAME: Words<'static> = &["display", "name"];
const SHA3_SUM: Words<'static> = &["sha3", "sum"];

#[test]
fn one_name_spells_every_way() {
    assert_eq!(Spelling::Snake.spell(DISPLAY_NAME), "display_name");
    assert_eq!(Spelling::LowerCamel.spell(DISPLAY_NAME), "displayName");
    assert_eq!(Spelling::UpperCamel.spell(DISPLAY_NAME), "DisplayName");
    assert_eq!(Spelling::Kebab.spell(DISPLAY_NAME), "display-name");
    assert_eq!(Spelling::Screaming.spell(DISPLAY_NAME), "DISPLAY_NAME");
}

#[test]
fn an_identifier_states_the_words_it_is_made_of() {
    assert_eq!(words_of("display_name"), ["display", "name"]);
    assert_eq!(Spelling::LowerCamel.spell(&words_of("display_name")), "displayName");
}

#[test]
fn a_word_with_a_digit_keeps_its_boundary() {
    // Nothing re-segments, so the boundary the name states is the boundary every spelling keeps.
    assert_eq!(Spelling::LowerCamel.spell(SHA3_SUM), "sha3Sum");
    assert_eq!(Spelling::Snake.spell(SHA3_SUM), "sha3_sum");
}

#[test]
fn words_of_skips_empty_runs() {
    assert_eq!(words_of("__display__name_"), ["display", "name"]);
    assert_eq!(words_of(""), Vec::<&str>::new());
    assert_eq!(words_of("___"), Vec::<&str>::new());
    assert_eq!(words_of("single"), ["single"]);
}

#[test]
fn words_read_back_out_of_their_snake_spelling() {
    let words: Words<'static> = &["request", "id", "v2"];
    let spelled = Spelling::Snake.spell(words);
    assert_eq!(words_of(&spelled), words);
}

#[test]
fn spelling_no_words_is_empty() {
    for spelling in [Spelling::Snake, Spelling::Kebab, Spelling::Screaming, Spelling::LowerCamel, Spelling::UpperCamel] {
        assert_eq!(spelling.spell(&[]), "");
    }
}

#[test]
fn case_mapping_is_unicode_aware() {
    // Upper-casing can change a word's length, which is why it is a function of the whole text.
    assert_eq!(Spelling::Screaming.spell(&["straße"]), "STRASSE");
    assert_eq!(Spelling::UpperCamel.spell(&["éclair", "über"]), "ÉclairÜber");
    assert_eq!(Spelling::LowerCamel.spell(&["Display", "Name"]), "displayName");
}

#[test]
fn derived_operations_state_their_primitives() {
    let alg = Described;
    assert_eq!(alg.bytes_hex(Some(32)), "hex(bytes[32])");
    assert_eq!(alg.bytes_hex(None), "hex(bytes)");
    assert_eq!(alg.bytes_array(), "[u8]");
    assert_eq!(alg.int_decimal(false, 128), "decimal(u128)");
    assert_eq!(alg.int_hex(true, 64), "hex(i64)");
    assert_eq!(alg.named_product(&["pair"], vec!["a: bool".to_owned()]), "pair={a: bool}");
}

#[test]
fn choices_state_each_encoding() {
    let alg = Described;
    let alternatives = || vec![(&["on"][..], alg.truth()), (&["count"][..], alg.integer(false, 8))];
    assert_eq!(alg.sum_untagged(alternatives()), "bool | u8");
    assert_eq!(alg.sum_of_names(vec![&["red"][..], &["dark", "blue"][..]]), "\"red\" | \"dark_blue\"");
    assert_eq!(alg.sum_external(alternatives()), "{on: bool} | {count: u8}");
    assert_eq!(alg.sum_internal(&["kind"], alternatives()), "{kind: \"on\", ..bool} | {kind: \"count\", ..u8}");
    assert_eq!(
        alg.sum_adjacent(&["kind"], &["value"], alternatives()),
        "{kind: \"on\", value: bool} | {kind: \"count\", value: u8}"
    );
    assert_eq!(alg.sum_untagged(Vec::new()), "");
}

#[test]
fn a_record_states_its_members_in_order() {
    let alg = Described;
    let shape = alg
        .record(&["display", "name"])
        .field(&["first"], alg.text())
        .field_as::<String>(&["last"], alg.text())
        .field_of::<Option<u16>>(&["age"])
        .merge(alg.reference(&["extra"]))
        .into_shape();
    assert_eq!(shape, "display_name={first: string, last: string, age: u16?, ..@extra}");
    assert_eq!(alg.record(&["empty"]).into_shape(), "empty={}");
}

#[test]
fn standard_types_state_what_they_are_written_as() {
    let alg = Described;
    assert_eq!(<u8 as ShapeOf<Described>>::shape_of(&alg), "u8");
    assert_eq!(<i128 as ShapeOf<Described>>::shape_of(&alg), "i128");
    assert_eq!(<usize as ShapeOf<Described>>::shape_of(&alg), "u64");
    assert_eq!(<isize as ShapeOf<Described>>::shape_of(&alg), "i64");
    assert_eq!(<bool as ShapeOf<Described>>::shape_of(&alg), "bool");
    assert_eq!(<String as ShapeOf<Described>>::shape_of(&alg), "string");
    assert_eq!(<str as ShapeOf<Described>>::shape_of(&alg), "string");
    assert_eq!(<() as ShapeOf<Described>>::shape_of(&alg), "null");
    assert_eq!(<Option<u32> as ShapeOf<Described>>::shape_of(&alg), "u32?");
    assert_eq!(<Vec<Vec<i8>> as ShapeOf<Described>>::shape_of(&alg), "[[i8]]");
    assert_eq!(<[u16] as ShapeOf<Described>>::shape_of(&alg), "[u16]");
    assert_eq!(<[u8; 4] as ShapeOf<Described>>::shape_of(&alg), "[u8]");
    assert_eq!(<Box<bool> as ShapeOf<Described>>::shape_of(&alg), "bool");
    assert_eq!(<HashMap<String, u64> as ShapeOf<Described>>::shape_of(&alg), "{string: u64}");
    assert_eq!(<BTreeMap<u32, Option<bool>> as ShapeOf<Described>>::shape_of(&alg), "{u32: bool?}");
}

#[test]
fn every_primitive_is_described() {
    let alg = Described;
    assert_eq!(alg.literal("on"), "'on'");
    assert_eq!(alg.name_word(&["dark", "blue"]), "\"dark_blue\"");
    assert_eq!(alg.float(64), "f64");
    assert_eq!(alg.base64(alg.bytes(None)), "base64(bytes)");
    assert_eq!(alg.decimal(alg.integer(false, 128)), "decimal(u128)");
    assert_eq!(alg.map(alg.text(), alg.unit()), "{string: null}");
    assert_eq!(alg.named(&["point"], alg.product(vec![alg.field(&["x"], alg.integer(true, 32))])), "point={x: i32}");
    assert_eq!(alg.reference(&["point"]), "@point");
    assert_eq!(alg.merge(alg.reference(&["base"])), "..@base");
    assert_eq!(alg.opt(alg.seq(alg.truth())), "[bool]?");
}

#[test]
fn the_attributes_state_which_encoding_a_choice_has() {
    let alg = Described;
    let alternatives = || vec![AlternativeLayout { words: &["on"][..], held: Held::One(alg.truth()) }];
    let tag: Words<'static> = &["kind"];
    let content: Words<'static> = &["value"];
    assert!(matches!(tagging(true, Some(tag), Some(content)), Tagging::Untagged));
    assert!(matches!(tagging(false, Some(tag), Some(content)), Tagging::Adjacent(_, _)));
    assert!(matches!(tagging(false, Some(tag), None), Tagging::Internal(_)));
    assert!(matches!(tagging(false, None, Some(content)), Tagging::External));
    assert_eq!(choice_of(&alg, tagging(false, None, None), alternatives()), Ok("{on: bool}".to_string()));
    assert_eq!(choice_of(&alg, tagging(false, Some(tag), None), alternatives()), Ok("{kind: \"on\", ..bool}".to_string()));
    assert_eq!(
        choice_of(&alg, tagging(false, Some(tag), Some(content)), alternatives()),
        Ok("{kind: \"on\", value: bool}".to_string())
    );
    assert_eq!(choice_of(&alg, tagging(true, None, None), alternatives()), Ok("bool".to_string()));
}

#[test]
fn a_layout_states_every_member_it_writes() {
    let alg = Described;
    let members = vec![
        MemberLayout { words: &["id"][..], shape: alg.integer(false, 64), skipped: false, merged: false },
        MemberLayout { words: &["cache"][..], shape: alg.text(), skipped: true, merged: false },
        MemberLayout { words: &["base"][..], shape: alg.reference(&["base"]), skipped: false, merged: true },
    ];
    let body = product_of(&alg, members);
    assert_eq!(body, "{id: u64, ..@base}");
    assert_eq!(layout_shape(&alg, &["record"], body), "record={id: u64, ..@base}");
}

#[test]
fn a_choice_of_names_alone_ignores_the_tagging() {
    let alg = Described;
    let names = || {
        vec![
            AlternativeLayout { words: &["dark"][..], held: Held::Nothing },
            AlternativeLayout { words: &["light"][..], held: Held::Nothing },
        ]
    };
    let tag: Words<'static> = &["kind"];
    let expected = alg.sum_of_names(vec![&["dark"][..], &["light"][..]]);
    assert_eq!(choice_of(&alg, tagging(false, None, None), names()), Ok(expected.clone()));
    assert_eq!(choice_of(&alg, tagging(false, Some(tag), None), names()), Ok(expected.clone()));
    assert_eq!(choice_of(&alg, tagging(true, None, None), names()), Ok(expected));
}

#[test]
fn a_unit_alternative_beside_others_holds_the_unit() {
    let alg = Described;
    let alternatives = vec![
        AlternativeLayout { words: &["off"][..], held: Held::Nothing },
        AlternativeLayout { words: &["on"][..], held: Held::One(alg.truth()) },
    ];
    assert_eq!(
        choice_of(&alg, tagging(false, None, None), alternatives),
        Ok(alg.choice(vec![
            alg.product(vec![alg.field(&["off"], alg.unit())]),
            alg.product(vec![alg.field(&["on"], alg.truth())]),
        ]))
    );
}

#[test]
fn an_alternative_holding_several_values_is_refused() {
    let alg = Described;
    let alternatives = vec![
        AlternativeLayout { words: &["off"][..], held: Held::Nothing },
        AlternativeLayout { words: &["pair"][..], held: Held::Several },
    ];
    assert_eq!(choice_of(&alg, tagging(false, None, None), alternatives), Err(LayoutRefusal::SeveralHeld));
}

#[test]
fn a_layout_is_refused_where_it_states_no_shape() {
    let alg = Described;
    let members = || vec![MemberLayout { words: &["id"][..], shape: alg.integer(false, 64), skipped: false, merged: false }];
    assert_eq!(layout_of(&alg, true, &["record"], LayoutBody::Members(members())), Err(LayoutRefusal::Generic));
    assert_eq!(layout_of(&alg, false, &["record"], LayoutBody::Union), Err(LayoutRefusal::Union));
    assert_eq!(layout_of(&alg, false, &["record"], LayoutBody::Unnamed), Err(LayoutRefusal::UnnamedMembers));
    assert_eq!(layout_of(&alg, false, &["record"], LayoutBody::Members(members())), Ok("record={id: u64}".to_string()));
    let names = vec![AlternativeLayout { words: &["dark"][..], held: Held::Nothing }];
    assert_eq!(
        layout_of(&alg, false, &["tone"], LayoutBody::Alternatives(tagging(false, None, None), names)),
        Ok(alg.named(&["tone"], alg.sum_of_names(vec![&["dark"][..]])))
    );
}

#[test]
fn an_identifier_survives_reading_and_spelling_exactly_when_cleanly_separated() {
    for identifier in ["display_name", "sha3_sum", "x", ""] {
        assert_eq!(Spelling::Snake.spell(&words_of(identifier)), identifier);
    }
    for identifier in ["_display", "display_", "display__name"] {
        assert_ne!(Spelling::Snake.spell(&words_of(identifier)), identifier);
    }
}
