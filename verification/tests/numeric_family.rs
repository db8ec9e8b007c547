use std::cmp::Ordering;
use w3b_types::numeric::generate::{
    blocks, family, lines_128, primitives, primitives_128, types_of,
};
use w3b_types::numeric::kind::{FitsRelation, Kind, Numeric};
use w3b_types::text::push_decimal;

#[test]
fn kind_names() {
    assert_eq!(Kind::Int.ty(), "Int");
    assert_eq!(Kind::Uint.ty(), "Uint");
    assert_eq!(Kind::Int.primitive(), "i");
    assert_eq!(Kind::Uint.primitive(), "u");
    assert_eq!(Kind::Int.directive(), "@int");
    assert_eq!(Kind::Uint.directive(), "@uint");
}

#[test]
fn fits_in_within_one_kind_compares_widths() {
    assert_eq!(Numeric(Kind::Int, 8).fits_in(&Numeric(Kind::Int, 16)), Ordering::Less);
    assert_eq!(Numeric(Kind::Int, 16).fits_in(&Numeric(Kind::Int, 16)), Ordering::Equal);
    assert_eq!(Numeric(Kind::Int, 24).fits_in(&Numeric(Kind::Int, 16)), Ordering::Greater);
    assert_eq!(Numeric(Kind::Uint, 8).fits_in(&Numeric(Kind::Uint, 256)), Ordering::Less);
    assert_eq!(Numeric(Kind::Uint, 256).fits_in(&Numeric(Kind::Uint, 256)), Ordering::Equal);
    assert_eq!(Numeric(Kind::Uint, 256).fits_in(&Numeric(Kind::Uint, 64)), Ordering::Greater);
}

#[test]
fn fits_in_across_kinds() {
    assert_eq!(Numeric(Kind::Int, 16).fits_in(&Numeric(Kind::Uint, 8)), Ordering::Greater);
    assert_eq!(Numeric(Kind::Int, 8).fits_in(&Numeric(Kind::Uint, 8)), Ordering::Less);
    assert_eq!(Numeric(Kind::Int, 8).fits_in(&Numeric(Kind::Uint, 64)), Ordering::Less);
    assert_eq!(Numeric(Kind::Uint, 8).fits_in(&Numeric(Kind::Int, 64)), Ordering::Less);
    assert_eq!(Numeric(Kind::Uint, 64).fits_in(&Numeric(Kind::Int, 8)), Ordering::Less);
    assert_eq!(Numeric(Kind::Uint, 8).fits_in(&Numeric(Kind::Int, 8)), Ordering::Less);
}

#[test]
fn fits_agrees_with_fits_in() {
    for a in family() {
        for b in family() {
            assert_eq!(a.fits(&b).to_ordering(), a.fits_in(&b));
            assert_eq!(FitsRelation::from_ordering(a.fits_in(&b)), a.fits(&b));
        }
    }
}

#[test]
fn can_hold_is_range_containment() {
    fn range(n: &Numeric) -> (i32, i32) {
        match n.0 {
            Kind::Int => (-(n.1 as i32 - 1), n.1 as i32 - 1),
            Kind::Uint => (0, n.1 as i32),
        }
    }
    for target in family() {
        for source in family() {
            let (tl, th) = range(&target);
            let (sl, sh) = range(&source);
            assert_eq!(target.can_hold(&source), tl <= sl && sh <= th);
        }
    }
}

#[test]
fn supported_and_native_widths() {
    assert!(Numeric(Kind::Int, 8).is_supported());
    assert!(Numeric(Kind::Uint, 256).is_supported());
    assert!(Numeric(Kind::Uint, 24).is_supported());
    assert!(!Numeric(Kind::Uint, 0).is_supported());
    assert!(!Numeric(Kind::Uint, 12).is_supported());
    assert!(!Numeric(Kind::Int, 264).is_supported());
    assert!(Numeric(Kind::Int, 128).is_native());
    assert!(Numeric(Kind::Uint, 8).is_native());
    assert!(!Numeric(Kind::Uint, 24).is_native());
    assert!(!Numeric(Kind::Int, 256).is_native());
}

#[test]
fn family_lists_every_width_of_both_kinds() {
    let all = family();
    assert_eq!(all.len(), 64);
    assert_eq!(all[0], Numeric(Kind::Int, 8));
    assert_eq!(all[1], Numeric(Kind::Int, 16));
    assert_eq!(all[31], Numeric(Kind::Int, 256));
    assert_eq!(all[32], Numeric(Kind::Uint, 8));
    assert_eq!(all[63], Numeric(Kind::Uint, 256));
    assert!(all.iter().all(|n| n.is_supported()));
}

#[test]
fn primitive_tables() {
    assert_eq!(
        primitives(),
        vec![
            Numeric(Kind::Int, 8),
            Numeric(Kind::Int, 16),
            Numeric(Kind::Int, 32),
            Numeric(Kind::Int, 64),
            Numeric(Kind::Uint, 8),
            Numeric(Kind::Uint, 16),
            Numeric(Kind::Uint, 32),
            Numeric(Kind::Uint, 64),
        ]
    );
    assert_eq!(primitives_128(), vec![Numeric(Kind::Int, 128), Numeric(Kind::Uint, 128)]);
}

#[test]
fn query_types_lists_names_in_table_order() {
    let table = primitives();
    let int32 = Numeric(Kind::Int, 32);
    assert_eq!(int32.query_types(Ordering::Greater, &table), "i8, i16, u8, u16");
    assert_eq!(int32.query_types(Ordering::Equal, &table), "i32");
    assert_eq!(int32.query_types(Ordering::Less, &table), "i64, u32, u64");
    let uint32 = Numeric(Kind::Uint, 32);
    assert_eq!(uint32.query_types(Ordering::Greater, &table), "u8, u16");
    assert_eq!(uint32.query_types(Ordering::Equal, &table), "u32");
    assert_eq!(uint32.query_types(Ordering::Less, &table), "i8, i16, i32, i64, u64");
}

#[test]
fn query_types_of_nothing_is_empty() {
    let int8 = Numeric(Kind::Int, 8);
    assert_eq!(int8.query_types(Ordering::Greater, &primitives()), "");
    assert_eq!(int8.query_types(Ordering::Equal, &[]), "");
    assert_eq!(int8.query(FitsRelation::Equal, &[Numeric(Kind::Int, 8)]), "i8");
}

#[test]
fn block_of_the_narrowest_signed_type() {
    assert_eq!(
        Numeric(Kind::Int, 8).impl_(),
        "impl_num_ext! {\n    Int8;\n    @int, size = 1;\n    @eq i8;\n    @lt i16, i32, i64, u8, u16, u32, u64;\n}\n"
    );
}

#[test]
fn block_of_a_type_between_the_machine_widths() {
    assert_eq!(
        Numeric(Kind::Uint, 24).impl_(),
        "impl_num_ext! {\n    Uint24;\n    @uint, size = 3;\n    @gt u8, u16;\n    @lt i8, i16, i32, i64, u32, u64;\n}\n"
    );
    assert_eq!(
        Numeric(Kind::Int, 64).impl_(),
        "impl_num_ext! {\n    Int64;\n    @int, size = 8;\n    @gt i8, i16, i32, u8, u16, u32;\n    @eq i64;\n    @lt u64;\n}\n"
    );
}

#[test]
fn block_of_the_widest_types() {
    assert_eq!(
        Numeric(Kind::Int, 256).impl_(),
        "impl_num! {\n    Int256;\n    @int, size = 32;\n    @gt i8, i16, i32, i64, u8, u16, u32, u64;\n}\n"
    );
    assert_eq!(
        Numeric(Kind::Uint, 256).impl_(),
        "impl_num! {\n    Uint256;\n    @uint, size = 32;\n    @gt u8, u16, u32, u64;\n    @lt i8, i16, i32, i64;\n}\n"
    );
}

#[test]
fn line_for_the_128_bit_integers() {
    assert_eq!(Numeric(Kind::Int, 8).impl_128(), "    impl_num!(Int8; @lt i128, u128);\n");
    assert_eq!(Numeric(Kind::Int, 128).impl_128(), "    impl_num!(Int128; @eq i128; @lt u128);\n");
    assert_eq!(Numeric(Kind::Uint, 128).impl_128(), "    impl_num!(Uint128; @eq u128; @lt i128);\n");
    assert_eq!(Numeric(Kind::Int, 256).impl_128(), "    impl_num!(Int256; @gt i128, u128);\n");
    assert_eq!(Numeric(Kind::Uint, 136).impl_128(), "    impl_num!(Uint136; @gt u128; @lt i128);\n");
}

#[test]
fn decimal_numerals() {
    for (n, text) in [
        (0u128, "0"),
        (7, "7"),
        (10, "10"),
        (256, "256"),
        (1009, "1009"),
        (u128::MAX, "340282366920938463463374607431768211455"),
    ] {
        let mut out = String::from("n=");
        push_decimal(&mut out, n);
        assert_eq!(out, format!("n={}", text));
    }
}

#[test]
fn types_of_one_kind() {
    let signed = types_of(Kind::Int);
    assert_eq!(signed.len(), 32);
    assert_eq!(signed[0], Numeric(Kind::Int, 8));
    assert_eq!(signed[31], Numeric(Kind::Int, 256));
    let mut all = types_of(Kind::Int);
    all.extend(types_of(Kind::Uint));
    assert_eq!(all, family());
}

#[test]
fn blocks_are_set_apart_by_empty_lines() {
    assert_eq!(blocks(&[]), "");
    assert_eq!(
        blocks(&[Numeric(Kind::Int, 8), Numeric(Kind::Uint, 256)]),
        "\nimpl_num_ext! {\n    Int8;\n    @int, size = 1;\n    @eq i8;\n    @lt i16, i32, i64, u8, u16, u32, u64;\n}\n\nimpl_num! {\n    Uint256;\n    @uint, size = 32;\n    @gt u8, u16, u32, u64;\n    @lt i8, i16, i32, i64;\n}\n"
    );
}

#[test]
fn lines_follow_one_another() {
    assert_eq!(lines_128(&[]), "");
    assert_eq!(
        lines_128(&[Numeric(Kind::Int, 8), Numeric(Kind::Int, 256)]),
        "    impl_num!(Int8; @lt i128, u128);\n    impl_num!(Int256; @gt i128, u128);\n"
    );
}
