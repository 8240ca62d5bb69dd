use null_or_die::compat::{
    guess_paradigm, slot_abbreviation, slot_expansion, tolerance_band, ToleranceBand,
};
use null_or_die::number::Real;
use null_or_die::numeric::{Numerics, Place, Term};

fn num(v: f64) -> Real {
    Real { bits: v.to_bits() }
}

fn calc(t: Term) -> Real {
    match t {
        Term::Plus(a, b) => num(f64::from_bits(a.bits) + f64::from_bits(b.bits)),
        Term::Minus(a, b) => num(f64::from_bits(a.bits) - f64::from_bits(b.bits)),
        _ => unreachable!(),
    }
}

fn place(_: u32, _: usize) -> Place {
    unreachable!()
}

fn band(tolerance: f64) -> ToleranceBand {
    tolerance_band(&Numerics { calc, place }, num(tolerance))
}

#[test]
fn bands_lie_round_nine() {
    let band = band(4.0);
    assert_eq!(band.tolerance, num(4.0));
    assert_eq!(band.nine_less, num(5.0));
    assert_eq!(band.nine_more, num(13.0));
}

fn guess(bias: f64, tolerance: f64, null: bool, p9: bool, short: bool) -> &'static str {
    guess_paradigm(num(bias), band(tolerance), null, p9, short)
}

#[test]
fn guess_paradigm_matches_python_cases() {
    assert_eq!(guess(0.0, 3.0, true, true, true), "null");
    assert_eq!(guess(8.9, 3.0, true, true, true), "+9ms");
    assert_eq!(guess(20.0, 3.0, true, true, true), "????");
    assert_eq!(guess(8.9, 3.0, false, true, false), "probably +9ms");
    assert_eq!(guess(0.1, 3.0, false, true, false), "unclear paradigm");
}

#[test]
fn paradigm_bounds_are_strict() {
    assert_eq!(guess(4.0, 4.0, true, true, true), "????");
    assert_eq!(guess(-4.0, 4.0, true, true, true), "????");
    assert_eq!(guess(3.999, 4.0, true, true, true), "null");
    assert_eq!(guess(5.0, 4.0, true, true, true), "????");
    assert_eq!(guess(5.001, 4.0, true, true, true), "+9ms");
    assert_eq!(guess(13.0, 4.0, true, true, true), "????");
    assert_eq!(guess(f64::NAN, 4.0, true, true, true), "????");
    assert_eq!(guess(0.0, 4.0, true, true, false), "probably null");
}

#[test]
fn slot_roundtrip_for_null_paradigm() {
    let abbr = slot_abbreviation("dance-single", "Challenge", 0, "null");
    let expanded = slot_expansion(&abbr).expect("slot expansion failed");
    assert_eq!(
        expanded,
        ("dance-single".to_string(), "Challenge".to_string(), None)
    );
}

#[test]
fn slot_roundtrip_for_p9ms_edit() {
    let abbr = slot_abbreviation("dance-double", "Edit", 3, "+9ms");
    let expanded = slot_expansion(&abbr).expect("slot expansion failed");
    assert_eq!(
        expanded,
        ("dance-double".to_string(), "Edit".to_string(), Some(3))
    );
}

#[test]
fn every_known_slot_comes_back() {
    for style in ["dance-single", "dance-double"] {
        for slot in ["Challenge", "Hard", "Medium", "Easy", "Beginner", "Edit"] {
            for paradigm in ["null", "+9ms"] {
                let abbr = slot_abbreviation(style, slot, 12, paradigm);
                let index = if slot == "Edit" { Some(12) } else { None };
                assert_eq!(
                    slot_expansion(&abbr),
                    Ok((style.to_string(), slot.to_string(), index)),
                    "{abbr}"
                );
            }
        }
    }
}

#[test]
fn abbreviations_are_spelled_out() {
    assert_eq!(slot_abbreviation("dance-single", "Hard", 1, "null"), "ESP");
    assert_eq!(slot_abbreviation("dance-single", "Hard", 1, "+9ms"), "SH");
    assert_eq!(slot_abbreviation("dance-double", "Edit", 10, "null"), "X10DP");
    assert_eq!(slot_abbreviation("dance-double", "Edit", 10, "+9ms"), "D.10");
    assert_eq!(slot_abbreviation("pump-single", "Nope", 0, "null"), "??");
}

#[test]
fn strange_abbreviations_are_refused() {
    assert_eq!(
        slot_expansion("QSP"),
        Err("Unknown difficulty in abbreviation: QSP".to_string())
    );
    assert_eq!(
        slot_expansion("SQ"),
        Err("Unknown difficulty in abbreviation: SQ".to_string())
    );
    assert_eq!(
        slot_expansion("SP"),
        Err("Invalid null slot abbreviation: SP".to_string())
    );
    assert_eq!(
        slot_expansion("S"),
        Err("Invalid +9ms slot abbreviation: S".to_string())
    );
    assert_eq!(
        slot_expansion("xyz"),
        Err("Could not parse slot abbreviation: xyz".to_string())
    );
    assert_eq!(
        slot_expansion("Xa1SP"),
        Err("Invalid chart index in abbreviation: Xa1SP".to_string())
    );
}
