//! Paradigms of sync, and the short names of chart slots.

use crate::number::Real;
use crate::numeric::{Meaning, Numerics, Place, Term};
use crate::text;
use crate::text::{chars_of, decimal_text, has_tail, join2, join3, parse_chars, part_of, same_text};
use vstd::prelude::*;

verus! {

// ---------------------------------------------------------------------------
// Paradigms
// ---------------------------------------------------------------------------

/// How far a bias may lie from a paradigm, in milliseconds: the tolerance itself,
/// nine less the tolerance, and nine and the tolerance.
#[derive(Debug, Clone, Copy, PartialEq, Eq, Structural)]
pub struct ToleranceBand {
    pub tolerance: Real,
    pub nine_less: Real,
    pub nine_more: Real,
}

/// The bit pattern of 9.
pub const NINE: u64 = 0x4022_0000_0000_0000;

/// The band of a tolerance.
pub open spec fn band_of(m: Meaning, tolerance: Real) -> ToleranceBand {
    ToleranceBand {
        tolerance,
        nine_less: m.minus(Real { bits: NINE }, tolerance),
        nine_more: m.plus(Real { bits: NINE }, tolerance),
    }
}

pub fn tolerance_band<C: Fn(Term) -> Real, L: Fn(u32, usize) -> Place>(
    num: &Numerics<C, L>,
    tolerance: Real,
) -> (band: ToleranceBand)
    requires
        num.ready(),
    ensures
        forall|m: Meaning| #[trigger] num.follows(m) ==> band == band_of(m, tolerance),
{
    ToleranceBand {
        tolerance,
        nine_less: num.minus(Real { bits: NINE }, tolerance),
        nine_more: num.plus(Real { bits: NINE }, tolerance),
    }
}

/// Whether the bias lies strictly within the tolerance of zero.
pub open spec fn near_null(bias: Real, band: ToleranceBand) -> bool {
    band.tolerance.opposite().less(bias) && bias.less(band.tolerance)
}

/// Whether the bias lies strictly within the tolerance of nine.
pub open spec fn near_p9(bias: Real, band: ToleranceBand) -> bool {
    band.nine_less.less(bias) && bias.less(band.nine_more)
}

/// The paradigm that a bias suggests. Null comes before +9ms.
pub open spec fn paradigm_name(
    bias: Real,
    band: ToleranceBand,
    consider_null: bool,
    consider_p9ms: bool,
    short_paradigm: bool,
) -> Seq<char> {
    if consider_null && near_null(bias, band) {
        if short_paradigm {
            "null"@
        } else {
            "probably null"@
        }
    } else if consider_p9ms && near_p9(bias, band) {
        if short_paradigm {
            "+9ms"@
        } else {
            "probably +9ms"@
        }
    } else if short_paradigm {
        "????"@
    } else {
        "unclear paradigm"@
    }
}

pub fn guess_paradigm(
    sync_bias_ms: Real,
    band: ToleranceBand,
    consider_null: bool,
    consider_p9ms: bool,
    short_paradigm: bool,
) -> (name: &'static str)
    ensures
        name@ == paradigm_name(sync_bias_ms, band, consider_null, consider_p9ms, short_paradigm),
{
    let null: bool = band.tolerance.negated().is_less(sync_bias_ms) && sync_bias_ms.is_less(
        band.tolerance,
    );
    let p9: bool = band.nine_less.is_less(sync_bias_ms) && sync_bias_ms.is_less(band.nine_more);
    if consider_null && null {
        if short_paradigm {
            "null"
        } else {
            "probably null"
        }
    } else if consider_p9ms && p9 {
        if short_paradigm {
            "+9ms"
        } else {
            "probably +9ms"
        }
    } else if short_paradigm {
        "????"
    } else {
        "unclear paradigm"
    }
}

/// Null is told of a bias just where it is considered and the bias lies less than the
/// tolerance from zero, to either side: a bias and its opposite are both told null, or
/// neither is. What is told null stays so under a larger tolerance.
pub proof fn null_lies_round_zero(
    bias: Real,
    band: ToleranceBand,
    wider: ToleranceBand,
    consider_null: bool,
    consider_p9ms: bool,
    short_paradigm: bool,
)
    ensures
        ({
            let told = paradigm_name(bias, band, consider_null, consider_p9ms, short_paradigm);
            let null = if short_paradigm {
                "null"@
            } else {
                "probably null"@
            };
            let mirrored = paradigm_name(
                bias.opposite(),
                band,
                consider_null,
                consider_p9ms,
                short_paradigm,
            );
            let under_wider = paradigm_name(
                bias,
                wider,
                consider_null,
                consider_p9ms,
                short_paradigm,
            );
            &&& told == null <==> consider_null && !bias.nan() && !band.tolerance.nan()
                && bias.place() < band.tolerance.place() && -bias.place()
                < band.tolerance.place()
            &&& told == null <==> consider_null && bias.absolute().less(band.tolerance)
            &&& told == null <==> mirrored == null
            &&& told == null && band.tolerance.at_most(wider.tolerance) ==> under_wider == null
        }),
{
    reveal_paradigm_texts();
}

/// +9ms is told of a bias just where it is considered, null is not told, and the bias lies
/// between nine less the tolerance and nine and the tolerance. What lies neither there nor
/// round zero is left open, and so is everything where nothing is considered.
pub proof fn nine_lies_round_nine(
    m: Meaning,
    tolerance: Real,
    bias: Real,
    consider_null: bool,
    consider_p9ms: bool,
    short_paradigm: bool,
)
    ensures
        ({
            let nine = Real { bits: 0x4022_0000_0000_0000 };
            let told = paradigm_name(
                bias,
                band_of(m, tolerance),
                consider_null,
                consider_p9ms,
                short_paradigm,
            );
            let (null, p9, open) = if short_paradigm {
                ("null"@, "+9ms"@, "????"@)
            } else {
                ("probably null"@, "probably +9ms"@, "unclear paradigm"@)
            };
            let near = m.minus(nine, tolerance).less(bias) && bias.less(m.plus(nine, tolerance));
            &&& told == null <==> consider_null && bias.absolute().less(tolerance)
            &&& told == p9 <==> consider_p9ms && told != null && near
            &&& told == open <==> told != null && told != p9
            &&& !consider_null && !consider_p9ms ==> told == open
        }),
{
    reveal_paradigm_texts();
}

proof fn reveal_paradigm_texts()
    ensures
        "null"@ != "+9ms"@,
        "null"@ != "????"@,
        "+9ms"@ != "????"@,
        "probably null"@ != "probably +9ms"@,
        "probably null"@ != "unclear paradigm"@,
        "probably +9ms"@ != "unclear paradigm"@,
{
    reveal_strlit("null");
    reveal_strlit("+9ms");
    reveal_strlit("????");
    reveal_strlit("probably null");
    reveal_strlit("probably +9ms");
    reveal_strlit("unclear paradigm");
    assert("null"@[0] == 'n' && "+9ms"@[0] == '+' && "????"@[0] == '?');
    assert("probably null"@[9] == 'n' && "probably +9ms"@[9] == '+');
    assert("probably null"@[0] == 'p' && "probably +9ms"@[0] == 'p' && "unclear paradigm"@[0]
        == 'u');
}

// ---------------------------------------------------------------------------
// Slots
// ---------------------------------------------------------------------------

/// The letter of a style in a +9ms abbreviation.
pub open spec fn p9_style(steps_type: Seq<char>) -> Seq<char> {
    if steps_type == "dance-single"@ {
        "S"@
    } else if steps_type == "dance-double"@ {
        "D"@
    } else {
        "?"@
    }
}

/// The letter of a slot in a +9ms abbreviation.
pub open spec fn p9_slot(chart_slot: Seq<char>) -> Seq<char> {
    if chart_slot == "Challenge"@ {
        "X"@
    } else if chart_slot == "Hard"@ {
        "H"@
    } else if chart_slot == "Medium"@ {
        "M"@
    } else if chart_slot == "Easy"@ {
        "E"@
    } else if chart_slot == "Beginner"@ {
        "N"@
    } else if chart_slot == "Edit"@ {
        "."@
    } else {
        "?"@
    }
}

/// The letters of a style in a null abbreviation.
pub open spec fn null_style(steps_type: Seq<char>) -> Seq<char> {
    if steps_type == "dance-single"@ {
        "SP"@
    } else if steps_type == "dance-double"@ {
        "DP"@
    } else {
        "?"@
    }
}

/// The letter of a slot in a null abbreviation.
pub open spec fn null_slot(chart_slot: Seq<char>) -> Seq<char> {
    if chart_slot == "Challenge"@ {
        "C"@
    } else if chart_slot == "Hard"@ {
        "E"@
    } else if chart_slot == "Medium"@ {
        "D"@
    } else if chart_slot == "Easy"@ {
        "B"@
    } else if chart_slot == "Beginner"@ {
        "b"@
    } else if chart_slot == "Edit"@ {
        "X"@
    } else {
        "?"@
    }
}

/// The short name of a chart slot. Only an edit chart shows its index.
pub open spec fn abbreviation(
    steps_type: Seq<char>,
    chart_slot: Seq<char>,
    chart_index: nat,
    paradigm: Seq<char>,
) -> Seq<char> {
    let index = if chart_slot == "Edit"@ {
        text::decimal(chart_index)
    } else {
        Seq::empty()
    };
    if paradigm == "+9ms"@ {
        p9_style(steps_type) + p9_slot(chart_slot) + index
    } else {
        null_slot(chart_slot) + index + null_style(steps_type)
    }
}

fn p9_style_of(steps_type: &str) -> (out: &'static str)
    ensures
        out@ == p9_style(steps_type@),
{
    if same_text(steps_type, "dance-single") {
        "S"
    } else if same_text(steps_type, "dance-double") {
        "D"
    } else {
        "?"
    }
}

fn p9_slot_of(chart_slot: &str) -> (out: &'static str)
    ensures
        out@ == p9_slot(chart_slot@),
{
    if same_text(chart_slot, "Challenge") {
        "X"
    } else if same_text(chart_slot, "Hard") {
        "H"
    } else if same_text(chart_slot, "Medium") {
        "M"
    } else if same_text(chart_slot, "Easy") {
        "E"
    } else if same_text(chart_slot, "Beginner") {
        "N"
    } else if same_text(chart_slot, "Edit") {
        "."
    } else {
        "?"
    }
}

fn null_style_of(steps_type: &str) -> (out: &'static str)
    ensures
        out@ == null_style(steps_type@),
{
    if same_text(steps_type, "dance-single") {
        "SP"
    } else if same_text(steps_type, "dance-double") {
        "DP"
    } else {
        "?"
    }
}

fn null_slot_of(chart_slot: &str) -> (out: &'static str)
    ensures
        out@ == null_slot(chart_slot@),
{
    if same_text(chart_slot, "Challenge") {
        "C"
    } else if same_text(chart_slot, "Hard") {
        "E"
    } else if same_text(chart_slot, "Medium") {
        "D"
    } else if same_text(chart_slot, "Easy") {
        "B"
    } else if same_text(chart_slot, "Beginner") {
        "b"
    } else if same_text(chart_slot, "Edit") {
        "X"
    } else {
        "?"
    }
}

pub fn slot_abbreviation(
    steps_type: &str,
    chart_slot: &str,
    chart_index: usize,
    paradigm: &str,
) -> (out: String)
    ensures
        out@ == abbreviation(steps_type@, chart_slot@, chart_index as nat, paradigm@),
{
    let index: String = if same_text(chart_slot, "Edit") {
        decimal_text(chart_index)
    } else {
        String::new()
    };
    if same_text(paradigm, "+9ms") {
        join3(p9_style_of(steps_type), p9_slot_of(chart_slot), &index)
    } else {
        join3(null_slot_of(chart_slot), &index, null_style_of(steps_type))
    }
}

/// What an abbreviation stands for: the type of steps, the slot, and the index.
pub type Expansion = (Seq<char>, Seq<char>, Option<usize>);

pub open spec fn null_slot_name(letter: char) -> Option<Seq<char>> {
    if letter == 'C' {
        Some("Challenge"@)
    } else if letter == 'E' {
        Some("Hard"@)
    } else if letter == 'D' {
        Some("Medium"@)
    } else if letter == 'B' {
        Some("Easy"@)
    } else if letter == 'b' {
        Some("Beginner"@)
    } else if letter == 'X' {
        Some("Edit"@)
    } else {
        None
    }
}

pub open spec fn p9_slot_name(letter: char) -> Option<Seq<char>> {
    if letter == 'X' {
        Some("Challenge"@)
    } else if letter == 'H' {
        Some("Hard"@)
    } else if letter == 'M' {
        Some("Medium"@)
    } else if letter == 'E' {
        Some("Easy"@)
    } else if letter == 'N' {
        Some("Beginner"@)
    } else if letter == '.' {
        Some("Edit"@)
    } else {
        None
    }
}

/// The chart index between two positions of an abbreviation: none where they
/// leave no room for one.
pub open spec fn middle_index(abbr: Seq<char>, start: int, end: int) -> Result<
    Option<usize>,
    Seq<char>,
> {
    if end <= start {
        Ok(None)
    } else {
        match text::number_of(abbr.subrange(start, end)) {
            Some(n) => Ok(Some(n)),
            None => Err("Invalid chart index in abbreviation: "@ + abbr),
        }
    }
}

pub open spec fn null_expansion(abbr: Seq<char>) -> Result<Expansion, Seq<char>> {
    if abbr.len() < 3 {
        Err("Invalid null slot abbreviation: "@ + abbr)
    } else {
        let steps_type = if text::ends_with(abbr, "SP"@) {
            "dance-single"@
        } else {
            "dance-double"@
        };
        match null_slot_name(abbr[0]) {
            None => Err("Unknown difficulty in abbreviation: "@ + abbr),
            Some(chart_slot) => match middle_index(abbr, 1, abbr.len() - 2) {
                Err(e) => Err(e),
                Ok(index) => Ok((steps_type, chart_slot, index)),
            },
        }
    }
}

pub open spec fn p9_expansion(abbr: Seq<char>) -> Result<Expansion, Seq<char>> {
    if abbr.len() < 2 {
        Err("Invalid +9ms slot abbreviation: "@ + abbr)
    } else {
        let steps_type = if abbr[0] == 'S' {
            "dance-single"@
        } else {
            "dance-double"@
        };
        match p9_slot_name(abbr[1]) {
            None => Err("Unknown difficulty in abbreviation: "@ + abbr),
            Some(chart_slot) => match middle_index(abbr, 2, abbr.len() as int) {
                Err(e) => Err(e),
                Ok(index) => Ok((steps_type, chart_slot, index)),
            },
        }
    }
}

/// Whether the abbreviation has the shape of a null one: its style comes last.
pub open spec fn null_shaped(abbr: Seq<char>) -> bool {
    text::ends_with(abbr, "SP"@) || text::ends_with(abbr, "DP"@)
}

/// Whether the abbreviation has the shape of a +9ms one: its style comes first.
pub open spec fn p9_shaped(abbr: Seq<char>) -> bool {
    abbr.len() > 0 && (abbr[0] == 'S' || abbr[0] == 'D')
}

/// What an abbreviation stands for, or why it stands for nothing.
pub open spec fn expansion(abbr: Seq<char>) -> Result<Expansion, Seq<char>> {
    if null_shaped(abbr) {
        null_expansion(abbr)
    } else if p9_shaped(abbr) {
        p9_expansion(abbr)
    } else {
        Err("Could not parse slot abbreviation: "@ + abbr)
    }
}

/// Whether the letter of the slot, where the shape gives it a place, is a single
/// byte of UTF-8.
pub open spec fn slot_letter_is_ascii(abbr: Seq<char>) -> bool {
    if null_shaped(abbr) {
        abbr.len() >= 3 ==> abbr[0] <= '\u{7f}'
    } else {
        p9_shaped(abbr) && abbr.len() >= 2 ==> abbr[1] <= '\u{7f}'
    }
}

/// What an expansion says, its texts taken as characters.
pub open spec fn expansion_view(
    out: Result<(String, String, Option<usize>), String>,
) -> Result<Expansion, Seq<char>> {
    match out {
        Ok(v) => Ok((v.0@, v.1@, v.2)),
        Err(e) => Err(e@),
    }
}

fn parse_middle_index(abbr: &str, chars: &[char], start: usize, end: usize) -> (out: Result<
    Option<usize>,
    String,
>)
    requires
        chars@ == abbr@,
        end <= chars.len(),
    ensures
        match out {
            Ok(v) => middle_index(abbr@, start as int, end as int) == Ok::<
                Option<usize>,
                Seq<char>,
            >(v),
            Err(e) => middle_index(abbr@, start as int, end as int) == Err::<
                Option<usize>,
                Seq<char>,
            >(e@),
        },
{
    if end <= start {
        return Ok(None);
    }
    match parse_chars(&part_of(chars, start, end)) {
        Some(n) => Ok(Some(n)),
        None => Err(join2("Invalid chart index in abbreviation: ", abbr)),
    }
}

fn expand_null_slot(abbr: &str, chars: &[char]) -> (out: Result<
    (String, String, Option<usize>),
    String,
>)
    requires
        chars@ == abbr@,
    ensures
        expansion_view(out) == null_expansion(abbr@),
{
    if chars.len() < 3 {
        return Err(join2("Invalid null slot abbreviation: ", abbr));
    }
    let steps_type: &str = if has_tail(chars, &chars_of("SP")) {
        "dance-single"
    } else {
        "dance-double"
    };
    let letter: char = chars[0];
    let chart_slot: &str = if letter == 'C' {
        "Challenge"
    } else if letter == 'E' {
        "Hard"
    } else if letter == 'D' {
        "Medium"
    } else if letter == 'B' {
        "Easy"
    } else if letter == 'b' {
        "Beginner"
    } else if letter == 'X' {
        "Edit"
    } else {
        return Err(join2("Unknown difficulty in abbreviation: ", abbr));
    };
    match parse_middle_index(abbr, chars, 1, chars.len() - 2) {
        Ok(index) => Ok((steps_type.to_owned(), chart_slot.to_owned(), index)),
        Err(e) => Err(e),
    }
}

fn expand_p9_slot(abbr: &str, chars: &[char]) -> (out: Result<
    (String, String, Option<usize>),
    String,
>)
    requires
        chars@ == abbr@,
    ensures
        expansion_view(out) == p9_expansion(abbr@),
{
    if chars.len() < 2 {
        return Err(join2("Invalid +9ms slot abbreviation: ", abbr));
    }
    let steps_type: &str = if chars[0] == 'S' {
        "dance-single"
    } else {
        "dance-double"
    };
    let letter: char = chars[1];
    let chart_slot: &str = if letter == 'X' {
        "Challenge"
    } else if letter == 'H' {
        "Hard"
    } else if letter == 'M' {
        "Medium"
    } else if letter == 'E' {
        "Easy"
    } else if letter == 'N' {
        "Beginner"
    } else if letter == '.' {
        "Edit"
    } else {
        return Err(join2("Unknown difficulty in abbreviation: ", abbr));
    };
    match parse_middle_index(abbr, chars, 2, chars.len()) {
        Ok(index) => Ok((steps_type.to_owned(), chart_slot.to_owned(), index)),
        Err(e) => Err(e),
    }
}

/// Reads an abbreviation back into the type of steps, the slot and the index.
pub fn slot_expansion(abbr: &str) -> (out: Result<(String, String, Option<usize>), String>)
    requires
        slot_letter_is_ascii(abbr@),
    ensures
        expansion_view(out) == expansion(abbr@),
{
    let chars: Vec<char> = chars_of(abbr);
    if has_tail(&chars, &chars_of("SP")) || has_tail(&chars, &chars_of("DP")) {
        expand_null_slot(abbr, &chars)
    } else if chars.len() > 0 && (chars[0] == 'S' || chars[0] == 'D') {
        expand_p9_slot(abbr, &chars)
    } else {
        Err(join2("Could not parse slot abbreviation: ", abbr))
    }
}

/// The types of steps that an abbreviation can name.
pub open spec fn known_steps_type(steps_type: Seq<char>) -> bool {
    steps_type == "dance-single"@ || steps_type == "dance-double"@
}

/// The slots that an abbreviation can name.
pub open spec fn known_slot(chart_slot: Seq<char>) -> bool {
    ||| chart_slot == "Challenge"@
    ||| chart_slot == "Hard"@
    ||| chart_slot == "Medium"@
    ||| chart_slot == "Easy"@
    ||| chart_slot == "Beginner"@
    ||| chart_slot == "Edit"@
}

proof fn reveal_slot_texts()
    ensures
        "dance-single"@.len() == 12,
        "dance-double"@.len() == 12,
        "dance-single"@[6] == 's',
        "dance-double"@[6] == 'd',
        "Challenge"@[0] == 'C',
        "Hard"@[0] == 'H',
        "Medium"@[0] == 'M',
        "Easy"@.len() == 4 && "Easy"@[1] == 'a' && "Easy"@[0] == 'E',
        "Edit"@.len() == 4 && "Edit"@[1] == 'd' && "Edit"@[0] == 'E',
        "Beginner"@[0] == 'B',
        "S"@ =~= seq!['S'],
        "D"@ =~= seq!['D'],
        "SP"@ =~= seq!['S', 'P'],
        "DP"@ =~= seq!['D', 'P'],
        "X"@ =~= seq!['X'],
        "H"@ =~= seq!['H'],
        "M"@ =~= seq!['M'],
        "E"@ =~= seq!['E'],
        "N"@ =~= seq!['N'],
        "."@ =~= seq!['.'],
        "C"@ =~= seq!['C'],
        "B"@ =~= seq!['B'],
        "b"@ =~= seq!['b'],
{
    reveal_strlit("dance-single");
    reveal_strlit("dance-double");
    reveal_strlit("Challenge");
    reveal_strlit("Hard");
    reveal_strlit("Medium");
    reveal_strlit("Easy");
    reveal_strlit("Edit");
    reveal_strlit("Beginner");
    reveal_strlit("S");
    reveal_strlit("D");
    reveal_strlit("SP");
    reveal_strlit("DP");
    reveal_strlit("X");
    reveal_strlit("H");
    reveal_strlit("M");
    reveal_strlit("E");
    reveal_strlit("N");
    reveal_strlit(".");
    reveal_strlit("C");
    reveal_strlit("B");
    reveal_strlit("b");
}

/// Expanding the abbreviation of a known slot gives the slot back, in either
/// paradigm; the index comes back for an edit chart, and only there.
pub proof fn slot_round_trip(
    steps_type: Seq<char>,
    chart_slot: Seq<char>,
    chart_index: usize,
    paradigm: Seq<char>,
)
    requires
        known_steps_type(steps_type),
        known_slot(chart_slot),
    ensures
        slot_letter_is_ascii(abbreviation(steps_type, chart_slot, chart_index as nat, paradigm)),
        expansion(abbreviation(steps_type, chart_slot, chart_index as nat, paradigm)) == Ok::<
            Expansion,
            Seq<char>,
        >(
            (
                steps_type,
                chart_slot,
                if chart_slot == "Edit"@ {
                    Some(chart_index)
                } else {
                    None
                },
            ),
        ),
{
    reveal_slot_texts();
    let abbr = abbreviation(steps_type, chart_slot, chart_index as nat, paradigm);
    let index = if chart_slot == "Edit"@ {
        text::decimal(chart_index as nat)
    } else {
        Seq::empty()
    };
    text::lemma_decimal(chart_index as nat);
    text::decimal_reads_back(chart_index);
    assert(text::all_digits(index));
    if paradigm == "+9ms"@ {
        let style = p9_style(steps_type);
        let slot = p9_slot(chart_slot);
        assert(abbr.len() == 2 + index.len());
        assert(abbr[0] == style[0]);
        assert(abbr[1] == slot[0]);
        assert(abbr.subrange(2, abbr.len() as int) =~= index);
        assert(!null_shaped(abbr)) by {
            if text::ends_with(abbr, "SP"@) {
                assert(abbr.skip(abbr.len() - 2)[1] == 'P');
            }
            if text::ends_with(abbr, "DP"@) {
                assert(abbr.skip(abbr.len() - 2)[1] == 'P');
            }
            if index.len() > 0 {
                assert(abbr.last() == index.last());
                assert(text::digit(index[index.len() - 1]));
            }
        }
    } else {
        let style = null_style(steps_type);
        let slot = null_slot(chart_slot);
        assert(abbr.len() == 3 + index.len());
        assert(abbr[0] == slot[0]);
        assert(abbr.skip(abbr.len() - 2) =~= style);
        assert(abbr.subrange(1, abbr.len() - 2) =~= index);
        if steps_type == "dance-double"@ {
            assert(!text::ends_with(abbr, "SP"@)) by {
                assert(style[0] == 'D');
                assert("SP"@[0] == 'S');
            }
        }
    }
}

/// No two known slots share an abbreviation within a paradigm, except that all
/// but the edit charts leave their index out.
pub proof fn abbreviations_tell_slots_apart(
    steps_a: Seq<char>,
    slot_a: Seq<char>,
    index_a: usize,
    steps_b: Seq<char>,
    slot_b: Seq<char>,
    index_b: usize,
    paradigm: Seq<char>,
)
    requires
        known_steps_type(steps_a),
        known_slot(slot_a),
        known_steps_type(steps_b),
        known_slot(slot_b),
        abbreviation(steps_a, slot_a, index_a as nat, paradigm) == abbreviation(
            steps_b,
            slot_b,
            index_b as nat,
            paradigm,
        ),
    ensures
        steps_a == steps_b,
        slot_a == slot_b,
        slot_a == "Edit"@ ==> index_a == index_b,
{
    slot_round_trip(steps_a, slot_a, index_a, paradigm);
    slot_round_trip(steps_b, slot_b, index_b, paradigm);
}

/// The names of the slots in the null paradigm, whatever the index: the letter of the
/// slot, the index of an edit chart, and the style.
pub proof fn null_names(chart_index: nat, paradigm: Seq<char>)
    requires
        paradigm != "+9ms"@,
    ensures
        abbreviation("dance-single"@, "Challenge"@, chart_index, paradigm) == "CSP"@,
        abbreviation("dance-single"@, "Hard"@, chart_index, paradigm) == "ESP"@,
        abbreviation("dance-single"@, "Medium"@, chart_index, paradigm) == "DSP"@,
        abbreviation("dance-single"@, "Easy"@, chart_index, paradigm) == "BSP"@,
        abbreviation("dance-single"@, "Beginner"@, chart_index, paradigm) == "bSP"@,
        abbreviation("dance-single"@, "Edit"@, chart_index, paradigm) == "X"@ + text::decimal(chart_index) + "SP"@,
        abbreviation("dance-double"@, "Challenge"@, chart_index, paradigm) == "CDP"@,
        abbreviation("dance-double"@, "Hard"@, chart_index, paradigm) == "EDP"@,
        abbreviation("dance-double"@, "Medium"@, chart_index, paradigm) == "DDP"@,
        abbreviation("dance-double"@, "Easy"@, chart_index, paradigm) == "BDP"@,
        abbreviation("dance-double"@, "Beginner"@, chart_index, paradigm) == "bDP"@,
        abbreviation("dance-double"@, "Edit"@, chart_index, paradigm) == "X"@ + text::decimal(chart_index) + "DP"@,
{
    reveal_slot_texts();
    reveal_strlit("BDP");
    reveal_strlit("BSP");
    reveal_strlit("CDP");
    reveal_strlit("CSP");
    reveal_strlit("DDP");
    reveal_strlit("DSP");
    reveal_strlit("EDP");
    reveal_strlit("ESP");
    reveal_strlit("bDP");
    reveal_strlit("bSP");
    assert(abbreviation("dance-single"@, "Challenge"@, chart_index, paradigm) =~= "CSP"@);
    assert(abbreviation("dance-single"@, "Hard"@, chart_index, paradigm) =~= "ESP"@);
    assert(abbreviation("dance-single"@, "Medium"@, chart_index, paradigm) =~= "DSP"@);
    assert(abbreviation("dance-single"@, "Easy"@, chart_index, paradigm) =~= "BSP"@);
    assert(abbreviation("dance-single"@, "Beginner"@, chart_index, paradigm) =~= "bSP"@);
    assert(abbreviation("dance-double"@, "Challenge"@, chart_index, paradigm) =~= "CDP"@);
    assert(abbreviation("dance-double"@, "Hard"@, chart_index, paradigm) =~= "EDP"@);
    assert(abbreviation("dance-double"@, "Medium"@, chart_index, paradigm) =~= "DDP"@);
    assert(abbreviation("dance-double"@, "Easy"@, chart_index, paradigm) =~= "BDP"@);
    assert(abbreviation("dance-double"@, "Beginner"@, chart_index, paradigm) =~= "bDP"@);
}

/// The names of the slots in the +9ms paradigm, whatever the index: the style, the letter
/// of the slot, and the index of an edit chart.
pub proof fn p9_names(chart_index: nat)
    ensures
        abbreviation("dance-single"@, "Challenge"@, chart_index, "+9ms"@) == "SX"@,
        abbreviation("dance-single"@, "Hard"@, chart_index, "+9ms"@) == "SH"@,
        abbreviation("dance-single"@, "Medium"@, chart_index, "+9ms"@) == "SM"@,
        abbreviation("dance-single"@, "Easy"@, chart_index, "+9ms"@) == "SE"@,
        abbreviation("dance-single"@, "Beginner"@, chart_index, "+9ms"@) == "SN"@,
        abbreviation("dance-single"@, "Edit"@, chart_index, "+9ms"@) == "S."@ + text::decimal(chart_index),
        abbreviation("dance-double"@, "Challenge"@, chart_index, "+9ms"@) == "DX"@,
        abbreviation("dance-double"@, "Hard"@, chart_index, "+9ms"@) == "DH"@,
        abbreviation("dance-double"@, "Medium"@, chart_index, "+9ms"@) == "DM"@,
        abbreviation("dance-double"@, "Easy"@, chart_index, "+9ms"@) == "DE"@,
        abbreviation("dance-double"@, "Beginner"@, chart_index, "+9ms"@) == "DN"@,
        abbreviation("dance-double"@, "Edit"@, chart_index, "+9ms"@) == "D."@ + text::decimal(chart_index),
{
    reveal_slot_texts();
    reveal_strlit("D.");
    reveal_strlit("DE");
    reveal_strlit("DH");
    reveal_strlit("DM");
    reveal_strlit("DN");
    reveal_strlit("DX");
    reveal_strlit("S.");
    reveal_strlit("SE");
    reveal_strlit("SH");
    reveal_strlit("SM");
    reveal_strlit("SN");
    reveal_strlit("SX");
    assert(abbreviation("dance-single"@, "Challenge"@, chart_index, "+9ms"@) =~= "SX"@);
    assert(abbreviation("dance-single"@, "Hard"@, chart_index, "+9ms"@) =~= "SH"@);
    assert(abbreviation("dance-single"@, "Medium"@, chart_index, "+9ms"@) =~= "SM"@);
    assert(abbreviation("dance-single"@, "Easy"@, chart_index, "+9ms"@) =~= "SE"@);
    assert(abbreviation("dance-single"@, "Beginner"@, chart_index, "+9ms"@) =~= "SN"@);
    assert(abbreviation("dance-single"@, "Edit"@, chart_index, "+9ms"@) =~= "S."@ + text::decimal(
        chart_index,
    ));
    assert(abbreviation("dance-double"@, "Challenge"@, chart_index, "+9ms"@) =~= "DX"@);
    assert(abbreviation("dance-double"@, "Hard"@, chart_index, "+9ms"@) =~= "DH"@);
    assert(abbreviation("dance-double"@, "Medium"@, chart_index, "+9ms"@) =~= "DM"@);
    assert(abbreviation("dance-double"@, "Easy"@, chart_index, "+9ms"@) =~= "DE"@);
    assert(abbreviation("dance-double"@, "Beginner"@, chart_index, "+9ms"@) =~= "DN"@);
    assert(abbreviation("dance-double"@, "Edit"@, chart_index, "+9ms"@) =~= "D."@ + text::decimal(
        chart_index,
    ));
}

/// What is no known style or slot is named by a question mark, in either paradigm.
pub proof fn unknown_slots_are_questioned(
    steps_type: Seq<char>,
    chart_slot: Seq<char>,
    chart_index: nat,
    paradigm: Seq<char>,
)
    ensures
        ({
            let name = abbreviation(steps_type, chart_slot, chart_index, paradigm);
            let (style_at, slot_at) = if paradigm == "+9ms"@ {
                (0, 1)
            } else {
                (name.len() - 1, 0)
            };
            &&& name[style_at] == '?' <==> !known_steps_type(steps_type)
            &&& name[slot_at] == '?' <==> !known_slot(chart_slot)
            &&& !known_slot(chart_slot) ==> name.len() == if known_steps_type(steps_type)
                && paradigm != "+9ms"@ {
                3
            } else {
                2int
            }
        }),
{
    reveal_slot_texts();
    reveal_strlit("?");
    text::lemma_decimal(chart_index);
}

/// What the names of the slots are read back as: a null name by its first letter and its
/// last two, a +9ms name by its first two, and the digits between or behind them as the
/// index.
pub proof fn names_read_back(digits: Seq<char>)
    requires
        text::all_digits(digits),
    ensures
        read_as(seq!['C'] + digits + seq!['S', 'P'], "dance-single"@, "Challenge"@, digits),
        read_as(seq!['E'] + digits + seq!['S', 'P'], "dance-single"@, "Hard"@, digits),
        read_as(seq!['D'] + digits + seq!['S', 'P'], "dance-single"@, "Medium"@, digits),
        read_as(seq!['B'] + digits + seq!['S', 'P'], "dance-single"@, "Easy"@, digits),
        read_as(seq!['b'] + digits + seq!['S', 'P'], "dance-single"@, "Beginner"@, digits),
        read_as(seq!['X'] + digits + seq!['S', 'P'], "dance-single"@, "Edit"@, digits),
        read_as(seq!['C'] + digits + seq!['D', 'P'], "dance-double"@, "Challenge"@, digits),
        read_as(seq!['E'] + digits + seq!['D', 'P'], "dance-double"@, "Hard"@, digits),
        read_as(seq!['D'] + digits + seq!['D', 'P'], "dance-double"@, "Medium"@, digits),
        read_as(seq!['B'] + digits + seq!['D', 'P'], "dance-double"@, "Easy"@, digits),
        read_as(seq!['b'] + digits + seq!['D', 'P'], "dance-double"@, "Beginner"@, digits),
        read_as(seq!['X'] + digits + seq!['D', 'P'], "dance-double"@, "Edit"@, digits),
        read_as(seq!['S', 'X'] + digits, "dance-single"@, "Challenge"@, digits),
        read_as(seq!['S', 'H'] + digits, "dance-single"@, "Hard"@, digits),
        read_as(seq!['S', 'M'] + digits, "dance-single"@, "Medium"@, digits),
        read_as(seq!['S', 'E'] + digits, "dance-single"@, "Easy"@, digits),
        read_as(seq!['S', 'N'] + digits, "dance-single"@, "Beginner"@, digits),
        read_as(seq!['S', '.'] + digits, "dance-single"@, "Edit"@, digits),
        read_as(seq!['D', 'X'] + digits, "dance-double"@, "Challenge"@, digits),
        read_as(seq!['D', 'H'] + digits, "dance-double"@, "Hard"@, digits),
        read_as(seq!['D', 'M'] + digits, "dance-double"@, "Medium"@, digits),
        read_as(seq!['D', 'E'] + digits, "dance-double"@, "Easy"@, digits),
        read_as(seq!['D', 'N'] + digits, "dance-double"@, "Beginner"@, digits),
        read_as(seq!['D', '.'] + digits, "dance-double"@, "Edit"@, digits),
{
    reveal_slot_texts();
    lemma_null_reads('C', digits, 'S', "Challenge"@);
    lemma_null_reads('E', digits, 'S', "Hard"@);
    lemma_null_reads('D', digits, 'S', "Medium"@);
    lemma_null_reads('B', digits, 'S', "Easy"@);
    lemma_null_reads('b', digits, 'S', "Beginner"@);
    lemma_null_reads('X', digits, 'S', "Edit"@);
    lemma_null_reads('C', digits, 'D', "Challenge"@);
    lemma_null_reads('E', digits, 'D', "Hard"@);
    lemma_null_reads('D', digits, 'D', "Medium"@);
    lemma_null_reads('B', digits, 'D', "Easy"@);
    lemma_null_reads('b', digits, 'D', "Beginner"@);
    lemma_null_reads('X', digits, 'D', "Edit"@);
    lemma_p9_reads('S', 'X', digits, "Challenge"@);
    lemma_p9_reads('S', 'H', digits, "Hard"@);
    lemma_p9_reads('S', 'M', digits, "Medium"@);
    lemma_p9_reads('S', 'E', digits, "Easy"@);
    lemma_p9_reads('S', 'N', digits, "Beginner"@);
    lemma_p9_reads('S', '.', digits, "Edit"@);
    lemma_p9_reads('D', 'X', digits, "Challenge"@);
    lemma_p9_reads('D', 'H', digits, "Hard"@);
    lemma_p9_reads('D', 'M', digits, "Medium"@);
    lemma_p9_reads('D', 'E', digits, "Easy"@);
    lemma_p9_reads('D', 'N', digits, "Beginner"@);
    lemma_p9_reads('D', '.', digits, "Edit"@);
}

/// Whether a name is read as a slot with the index that the digits write, with none where
/// there are no digits, or not at all where they write more than an index can be.
pub open spec fn read_as(
    name: Seq<char>,
    steps_type: Seq<char>,
    chart_slot: Seq<char>,
    digits: Seq<char>,
) -> bool {
    if digits.len() == 0 {
        expansion(name) == Ok::<Expansion, Seq<char>>((steps_type, chart_slot, None))
    } else if text::digits_value(digits) <= usize::MAX {
        expansion(name) == Ok::<Expansion, Seq<char>>(
            (steps_type, chart_slot, Some(text::digits_value(digits) as usize)),
        )
    } else {
        expansion(name) is Err
    }
}

proof fn lemma_digits_number(digits: Seq<char>)
    requires
        text::all_digits(digits),
        digits.len() > 0,
    ensures
        text::number_of(digits) == (if text::digits_value(digits) <= usize::MAX {
            Some(text::digits_value(digits) as usize)
        } else {
            None
        }),
{
    assert(text::digit(digits[0]));
}

proof fn lemma_null_reads(letter: char, digits: Seq<char>, style: char, slot: Seq<char>)
    requires
        text::all_digits(digits),
        style == 'S' || style == 'D',
        null_slot_name(letter) == Some(slot),
    ensures
        read_as(
            seq![letter] + digits + seq![style, 'P'],
            if style == 'S' {
                "dance-single"@
            } else {
                "dance-double"@
            },
            slot,
            digits,
        ),
{
    reveal_slot_texts();
    let name = seq![letter] + digits + seq![style, 'P'];
    assert(name.skip(name.len() - 2) =~= seq![style, 'P']);
    assert(seq!['S', 'P'][0] == 'S' && seq!['D', 'P'][0] == 'D');
    assert(seq![style, 'P'][0] == style);
    if style == 'D' {
        assert("SP"@[0] == 'S');
        assert(!text::ends_with(name, "SP"@));
    }
    assert(name.subrange(1, name.len() - 2) =~= digits);
    if digits.len() > 0 {
        lemma_digits_number(digits);
    }
}

proof fn lemma_p9_reads(style: char, letter: char, digits: Seq<char>, slot: Seq<char>)
    requires
        text::all_digits(digits),
        style == 'S' || style == 'D',
        letter != 'P',
        p9_slot_name(letter) == Some(slot),
    ensures
        read_as(
            seq![style, letter] + digits,
            if style == 'S' {
                "dance-single"@
            } else {
                "dance-double"@
            },
            slot,
            digits,
        ),
{
    reveal_slot_texts();
    let name = seq![style, letter] + digits;
    assert(!null_shaped(name)) by {
        assert(name.last() != 'P') by {
            if digits.len() > 0 {
                assert(name.last() == digits[digits.len() - 1]);
                assert(text::digit(digits[digits.len() - 1]));
            }
        }
        if text::ends_with(name, "SP"@) {
            assert(name.skip(name.len() - 2)[1] == 'P');
        }
        if text::ends_with(name, "DP"@) {
            assert(name.skip(name.len() - 2)[1] == 'P');
        }
    }
    assert(name.subrange(2, name.len() as int) =~= digits);
    if digits.len() > 0 {
        lemma_digits_number(digits);
    }
}

} // verus!
