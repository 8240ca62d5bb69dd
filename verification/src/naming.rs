//! Names for the files that an analysis writes.

use crate::compat;
use crate::compat::{guess_paradigm, slot_abbreviation};
use crate::model::AnalyzeParams;
use crate::number::Real;
use crate::text;
use crate::text::{
    chars_of, copy_of, decimal_text, is_alnum, is_ascii_white, join2, join3, string_of,
    to_lower_char, trim, trim_chars, TrimSet,
};
use vstd::prelude::*;

verus! {

/// The title and the subtitle without the white space round them, one behind
/// the other where there are both.
pub open spec fn title_of(title: Seq<char>, subtitle: Seq<char>) -> Seq<char> {
    let first = text::trimmed(title);
    let second = text::trimmed(subtitle);
    if second.len() == 0 {
        first
    } else if first.len() == 0 {
        second
    } else {
        first + " "@ + second
    }
}

pub fn full_title(title: &str, subtitle: &str) -> (out: String)
    ensures
        out@ == title_of(title@, subtitle@),
{
    let first: String = trim(title);
    let second: String = trim(subtitle);
    if second.as_str().is_empty() {
        first
    } else if first.as_str().is_empty() {
        second
    } else {
        join3(&first, " ", &second)
    }
}

// ---------------------------------------------------------------------------
// Slugs
// ---------------------------------------------------------------------------

/// The characters that a slug is made from.
pub open spec fn slug_source(c: char) -> bool {
    text::alnum(c) || c == '_' || c == '-' || text::ascii_white(c)
}

/// The characters that become a hyphen in a slug.
pub open spec fn dash_like(c: char) -> bool {
    c == '-' || text::ascii_white(c)
}

/// The characters of a text that a slug is made from, in small letters.
pub open spec fn slug_letters(raw: Seq<char>) -> Seq<char>
    decreases raw.len(),
{
    if raw.len() == 0 {
        Seq::empty()
    } else {
        let before = slug_letters(raw.drop_last());
        if slug_source(raw.last()) {
            before.push(text::lower_char(raw.last()))
        } else {
            before
        }
    }
}

/// The text with one hyphen in place of each run of hyphens and white space.
pub open spec fn hyphenated(letters: Seq<char>) -> Seq<char>
    decreases letters.len(),
{
    if letters.len() == 0 {
        Seq::empty()
    } else {
        let before = hyphenated(letters.drop_last());
        let c = letters.last();
        if !dash_like(c) {
            before.push(c)
        } else if letters.len() >= 2 && dash_like(letters[letters.len() - 2]) {
            before
        } else {
            before.push('-')
        }
    }
}

/// The slug of a text.
pub open spec fn slug(raw: Seq<char>) -> Seq<char> {
    text::trim_both(TrimSet::HyphenOrUnderscore, hyphenated(slug_letters(raw)))
}

fn is_dash_like(c: char) -> (yes: bool)
    ensures
        yes == dash_like(c),
{
    c == '-' || is_ascii_white(c)
}

pub fn slugify_ascii(raw: &str) -> (out: String)
    ensures
        out@ == slug(raw@),
{
    let chars: Vec<char> = chars_of(raw);
    let mut letters: Vec<char> = Vec::new();
    let mut i: usize = 0;
    assert(chars@.take(0) =~= Seq::<char>::empty());
    while i < chars.len()
        invariant
            i <= chars.len(),
            letters@ == slug_letters(chars@.take(i as int)),
        decreases chars.len() - i,
    {
        let c: char = chars[i];
        assert(chars@.take(i + 1).drop_last() =~= chars@.take(i as int));
        if is_alnum(c) || c == '_' || c == '-' || is_ascii_white(c) {
            letters.push(to_lower_char(c));
        }
        i += 1;
    }
    assert(chars@.take(i as int) =~= chars@);
    let mut out: Vec<char> = Vec::new();
    let mut last_dash: bool = false;
    let mut j: usize = 0;
    assert(letters@.take(0) =~= Seq::<char>::empty());
    while j < letters.len()
        invariant
            j <= letters.len(),
            out@ == hyphenated(letters@.take(j as int)),
            last_dash == (j > 0 && dash_like(letters@[j - 1])),
        decreases letters.len() - j,
    {
        let c: char = letters[j];
        let ghost more = letters@.take(j + 1);
        assert(more.drop_last() =~= letters@.take(j as int));
        assert(j > 0 ==> more[more.len() - 2] == letters@[j - 1]);
        if is_dash_like(c) {
            if !last_dash {
                out.push('-');
            }
            last_dash = true;
        } else {
            out.push(c);
            last_dash = false;
        }
        j += 1;
    }
    assert(letters@.take(j as int) =~= letters@);
    string_of(&trim_chars(TrimSet::HyphenOrUnderscore, &out))
}

/// The characters of a slug.
pub open spec fn slug_char(c: char) -> bool {
    'a' <= c <= 'z' || '0' <= c <= '9' || c == '_' || c == '-'
}

pub open spec fn slug_text(s: Seq<char>) -> bool {
    forall|i: int| 0 <= i < s.len() ==> slug_char(#[trigger] s[i])
}

/// Whether no two hyphens stand side by side.
pub open spec fn hyphens_apart(s: Seq<char>) -> bool {
    forall|i: int, j: int|
        0 <= i && j == i + 1 && j < s.len() ==> !(#[trigger] s[i] == '-' && #[trigger] s[j] == '-')
}

/// A slug holds small letters, digits, underscores and hyphens only, has no two
/// hyphens in a row, and neither starts nor ends with a hyphen or an underscore.
pub proof fn slugs_are_plain(raw: Seq<char>)
    ensures
        slug_text(slug(raw)),
        hyphens_apart(slug(raw)),
        slug(raw).len() > 0 ==> {
            &&& slug(raw)[0] != '-' && slug(raw)[0] != '_'
            &&& slug(raw).last() != '-' && slug(raw).last() != '_'
        },
{
    let letters = slug_letters(raw);
    lemma_slug_letters(raw);
    lemma_hyphenated(letters);
    let whole = hyphenated(letters);
    let (lo, hi) = text::lemma_trim_is_part(TrimSet::HyphenOrUnderscore, whole);
    assert forall|i: int| 0 <= i < slug(raw).len() implies slug_char(#[trigger] slug(raw)[i]) by {
        assert(slug_char(whole[lo + i]));
    }
    assert forall|i: int, j: int|
        0 <= i && j == i + 1 && j < slug(raw).len() implies !(#[trigger] slug(raw)[i] == '-'
        && #[trigger] slug(raw)[j] == '-') by {
        assert(!(whole[lo + i] == '-' && whole[lo + j] == '-'));
    }
}

/// A slug is its own slug, and texts that differ in the case of their letters alone have
/// the same slug.
pub proof fn slugs_are_stable(raw: Seq<char>, other: Seq<char>)
    ensures
        slug(slug(raw)) == slug(raw),
        text::lower(raw) == text::lower(other) ==> slug(raw) == slug(other),
{
    let own = slug(raw);
    slugs_are_plain(raw);
    lemma_own_letters(own);
    lemma_own_hyphens(own);
    if text::lower(raw) == text::lower(other) {
        lemma_lowered_letters(raw);
        lemma_lowered_letters(other);
    }
}

/// The letters of a slug are its own.
proof fn lemma_own_letters(s: Seq<char>)
    requires
        slug_text(s),
    ensures
        slug_letters(s) == s,
    decreases s.len(),
{
    if s.len() > 0 {
        let before = s.drop_last();
        assert forall|i: int| 0 <= i < before.len() implies slug_char(#[trigger] before[i]) by {
            assert(before[i] == s[i]);
        }
        lemma_own_letters(before);
        assert(slug_char(s[s.len() - 1]));
        assert(slug_letters(s) =~= s);
    } else {
        assert(slug_letters(s) =~= s);
    }
}

/// A text whose hyphens stand apart keeps them.
proof fn lemma_own_hyphens(s: Seq<char>)
    requires
        slug_text(s),
        hyphens_apart(s),
    ensures
        hyphenated(s) == s,
    decreases s.len(),
{
    if s.len() > 0 {
        let before = s.drop_last();
        assert forall|i: int| 0 <= i < before.len() implies slug_char(#[trigger] before[i]) by {
            assert(before[i] == s[i]);
        }
        assert forall|i: int, j: int|
            0 <= i && j == i + 1 && j < before.len() implies !(#[trigger] before[i] == '-'
            && #[trigger] before[j] == '-') by {
            assert(!(s[i] == '-' && s[j] == '-'));
        }
        lemma_own_hyphens(before);
        let n = s.len() - 1;
        assert(slug_char(s[n]));
        if n > 0 {
            assert(slug_char(s[n - 1]));
            assert(!(s[n - 1] == '-' && s[n] == '-'));
        }
        assert(hyphenated(s) =~= s);
    } else {
        assert(hyphenated(s) =~= s);
    }
}

/// The letters of a slug do not depend on the case of those of the text.
proof fn lemma_lowered_letters(raw: Seq<char>)
    ensures
        slug_letters(text::lower(raw)) == slug_letters(raw),
    decreases raw.len(),
{
    let low = text::lower(raw);
    if raw.len() > 0 {
        lemma_lowered_letters(raw.drop_last());
        assert(low.drop_last() =~= text::lower(raw.drop_last()));
        let c = raw.last();
        if 'A' <= c <= 'Z' {
            assert(text::lower_char(c) as u32 == c as u32 + 32);
        }
        assert(text::lower_char(text::lower_char(c)) == text::lower_char(c));
    } else {
        assert(low =~= raw);
    }
}

proof fn lemma_slug_letters(raw: Seq<char>)
    ensures
        forall|i: int|
            0 <= i < slug_letters(raw).len() ==> slug_char(#[trigger] slug_letters(raw)[i])
                || text::ascii_white(slug_letters(raw)[i]),
    decreases raw.len(),
{
    if raw.len() > 0 {
        let before = slug_letters(raw.drop_last());
        let c = raw.last();
        lemma_slug_letters(raw.drop_last());
        if slug_source(c) {
            let own = text::lower_char(c);
            if 'A' <= c <= 'Z' {
                assert(own as u32 == c as u32 + 32);
            }
            assert(slug_char(own) || text::ascii_white(own));
            assert forall|i: int| 0 <= i < slug_letters(raw).len() implies slug_char(
                #[trigger] slug_letters(raw)[i],
            ) || text::ascii_white(slug_letters(raw)[i]) by {
                if i < before.len() {
                    assert(slug_letters(raw)[i] == before[i]);
                }
            }
        }
    }
}

proof fn lemma_hyphenated(letters: Seq<char>)
    requires
        forall|i: int|
            0 <= i < letters.len() ==> slug_char(#[trigger] letters[i]) || text::ascii_white(
                letters[i],
            ),
    ensures
        slug_text(hyphenated(letters)),
        hyphens_apart(hyphenated(letters)),
        hyphenated(letters).len() > 0 && hyphenated(letters).last() == '-' ==> letters.len() > 0
            && dash_like(letters.last()),
    decreases letters.len(),
{
    if letters.len() > 0 {
        let rest = letters.drop_last();
        assert forall|i: int| 0 <= i < rest.len() implies slug_char(#[trigger] rest[i])
            || text::ascii_white(rest[i]) by {
            assert(rest[i] == letters[i]);
        }
        lemma_hyphenated(rest);
        let c = letters.last();
        assert(slug_char(letters[letters.len() - 1]) || text::ascii_white(
            letters[letters.len() - 1],
        ));
        if letters.len() >= 2 {
            assert(rest.last() == letters[letters.len() - 2]);
        }
    }
}

// ---------------------------------------------------------------------------
// File names
// ---------------------------------------------------------------------------

/// The characters that a file name keeps.
pub open spec fn stem_char(c: char) -> bool {
    text::alnum(c) || c == '-' || c == '_' || c == '.'
}

/// The text with a hyphen in place of each character that a file name does not
/// keep, and one hyphen in place of each run of hyphens.
pub open spec fn stem_letters(raw: Seq<char>) -> Seq<char>
    decreases raw.len(),
{
    if raw.len() == 0 {
        Seq::empty()
    } else {
        let before = stem_letters(raw.drop_last());
        let c = if stem_char(raw.last()) {
            raw.last()
        } else {
            '-'
        };
        if c == '-' && before.len() > 0 && before.last() == '-' {
            before
        } else {
            before.push(c)
        }
    }
}

/// A text as part of a file name.
pub open spec fn file_stem(raw: Seq<char>) -> Seq<char> {
    text::trim_both(TrimSet::Hyphen, stem_letters(raw))
}

pub fn sanitize_file_stem(raw: &str) -> (out: String)
    ensures
        out@ == file_stem(raw@),
{
    let chars: Vec<char> = chars_of(raw);
    let mut letters: Vec<char> = Vec::new();
    let mut i: usize = 0;
    assert(chars@.take(0) =~= Seq::<char>::empty());
    while i < chars.len()
        invariant
            i <= chars.len(),
            letters@ == stem_letters(chars@.take(i as int)),
        decreases chars.len() - i,
    {
        let own: char = chars[i];
        assert(chars@.take(i + 1).drop_last() =~= chars@.take(i as int));
        let c: char = if is_alnum(own) || own == '-' || own == '_' || own == '.' {
            own
        } else {
            '-'
        };
        let n: usize = letters.len();
        if !(c == '-' && n > 0 && letters[n - 1] == '-') {
            letters.push(c);
        }
        i += 1;
    }
    assert(chars@.take(i as int) =~= chars@);
    string_of(&trim_chars(TrimSet::Hyphen, &letters))
}

/// Part of a file name holds letters, digits, hyphens, underscores and dots only,
/// has no two hyphens in a row, and neither starts nor ends with a hyphen.
pub proof fn file_stems_are_plain(raw: Seq<char>)
    ensures
        forall|i: int| 0 <= i < file_stem(raw).len() ==> stem_char(#[trigger] file_stem(raw)[i]),
        hyphens_apart(file_stem(raw)),
        file_stem(raw).len() > 0 ==> file_stem(raw)[0] != '-' && file_stem(raw).last() != '-',
{
    let whole = stem_letters(raw);
    lemma_stem_letters(raw);
    let (lo, hi) = text::lemma_trim_is_part(TrimSet::Hyphen, whole);
    assert forall|i: int| 0 <= i < file_stem(raw).len() implies stem_char(
        #[trigger] file_stem(raw)[i],
    ) by {
        assert(stem_char(whole[lo + i]));
    }
    assert forall|i: int, j: int|
        0 <= i && j == i + 1 && j < file_stem(raw).len() implies !(#[trigger] file_stem(raw)[i]
        == '-' && #[trigger] file_stem(raw)[j] == '-') by {
        assert(!(whole[lo + i] == '-' && whole[lo + j] == '-'));
    }
}

proof fn lemma_stem_letters(raw: Seq<char>)
    ensures
        forall|i: int|
            0 <= i < stem_letters(raw).len() ==> stem_char(#[trigger] stem_letters(raw)[i]),
        hyphens_apart(stem_letters(raw)),
    decreases raw.len(),
{
    if raw.len() > 0 {
        lemma_stem_letters(raw.drop_last());
    }
}

/// The name of the file that a trace is written to. A simfile whose name is no
/// text is called "simfile".
pub open spec fn trace_name(stem: Option<Seq<char>>, chart_index: nat) -> Seq<char> {
    let own = match stem {
        Some(own) => own,
        None => "simfile"@,
    };
    "null-or-die-trace-"@ + file_stem(own) + "-chart"@ + text::decimal(chart_index) + ".json"@
}

pub fn trace_file_name(stem: Option<&str>, chart_index: usize) -> (out: String)
    ensures
        out@ == trace_name(text::option_str_view(stem), chart_index as nat),
{
    let safe: String = match stem {
        Some(own) => sanitize_file_stem(own),
        None => sanitize_file_stem("simfile"),
    };
    let head: String = join3("null-or-die-trace-", &safe, "-chart");
    join3(&head, &decimal_text(chart_index), ".json")
}

/// What the plots of a chart are called: the slug of the title and the slot, or
/// the number of the chart where that slug is empty.
pub open spec fn plot_stem(
    title: Seq<char>,
    subtitle: Seq<char>,
    steps_type: Seq<char>,
    difficulty: Seq<char>,
    chart_index: nat,
    paradigm: Seq<char>,
) -> Seq<char> {
    let own = slug(
        title_of(title, subtitle) + " "@ + compat::abbreviation(
            steps_type,
            difficulty,
            chart_index,
            paradigm,
        ),
    );
    if own.len() == 0 {
        "chart-"@ + text::decimal(chart_index)
    } else {
        own
    }
}

/// What the plots of a chart with this bias are called. The slot is abbreviated
/// as the paradigm that the bias suggests has it.
pub fn chart_plot_stem(
    title: &str,
    subtitle: &str,
    steps_type: &str,
    difficulty: &str,
    chart_index: usize,
    bias_ms: Real,
    params: &AnalyzeParams,
) -> (out: String)
    ensures
        out@ == plot_stem(
            title@,
            subtitle@,
            steps_type@,
            difficulty@,
            chart_index as nat,
            compat::paradigm_name(
                bias_ms,
                params.tolerance,
                params.consider_null,
                params.consider_p9ms,
                true,
            ),
        ),
{
    let guess: &str = guess_paradigm(
        bias_ms,
        params.tolerance,
        params.consider_null,
        params.consider_p9ms,
        true,
    );
    let slot: String = slot_abbreviation(steps_type, difficulty, chart_index, guess);
    let own: String = slugify_ascii(&join3(&full_title(title, subtitle), " ", &slot));
    if own.as_str().is_empty() {
        join2("chart-", &decimal_text(chart_index))
    } else {
        copy_of(&own)
    }
}

// ---------------------------------------------------------------------------
// What names keep
// ---------------------------------------------------------------------------

/// A title comes first and a subtitle behind it, one space between them; where one of them is
/// empty there is the other alone.
pub proof fn titles_come_before_subtitles(title: Seq<char>, subtitle: Seq<char>)
    ensures
        ({
            let (first, second) = (text::trimmed(title), text::trimmed(subtitle));
            let whole = title_of(title, subtitle);
            &&& first.len() > 0 && second.len() > 0 ==> whole == first.push(' ') + second
            &&& first.len() == 0 ==> whole == second
            &&& second.len() == 0 ==> whole == first
        }),
{
    reveal_strlit(" ");
    assert(" "@ =~= seq![' ']);
    let (first, second) = (text::trimmed(title), text::trimmed(subtitle));
    if first.len() > 0 && second.len() > 0 {
        assert(first + " "@ + second =~= first.push(' ') + second);
    }
    if first.len() == 0 && second.len() == 0 {
        assert(first =~= second);
    }
}

/// A slug keeps the letters and digits of a text, in order and in small letters, and its
/// underscores; hyphens and white space between them become one hyphen. A text that is plain
/// already is its own slug.
pub proof fn slugs_keep_letters_and_digits(raw: Seq<char>, more: Seq<char>, c: char)
    ensures
        slug_letters(raw + more) == slug_letters(raw) + slug_letters(more),
        slug_letters(seq![c]) == (if 48 <= c as int <= 57 || 97 <= c as int <= 122 || c == '_'
            || c == '-' || c as int == 32 || c as int == 9 || c as int == 10 || c as int == 12
            || c as int == 13 {
            seq![c]
        } else if 65 <= c as int <= 90 {
            seq![((c as u32 + 32) as char)]
        } else {
            Seq::empty()
        }),
        slug_text(raw) && hyphens_apart(raw) && raw.len() > 0 && raw[0] != '-' && raw[0] != '_'
            && raw.last() != '-' && raw.last() != '_' ==> slug(raw) == raw,
{
    lemma_letters_join(raw, more);
    assert(seq![c].drop_last() =~= Seq::<char>::empty());
    assert(slug_letters(Seq::<char>::empty()) =~= Seq::<char>::empty());
    assert(seq![c].last() == c);
    if slug_source(c) {
        assert(slug_letters(seq![c]) =~= seq![text::lower_char(c)]);
    }
    if slug_text(raw) && hyphens_apart(raw) && raw.len() > 0 && raw[0] != '-' && raw[0] != '_'
        && raw.last() != '-' && raw.last() != '_' {
        lemma_plain_letters(raw);
        lemma_plain_hyphens(raw);
        assert(text::trim_front(TrimSet::HyphenOrUnderscore, raw) == raw);
        assert(text::trim_back(TrimSet::HyphenOrUnderscore, raw) == raw);
    }
}

proof fn lemma_letters_join(raw: Seq<char>, more: Seq<char>)
    ensures
        slug_letters(raw + more) == slug_letters(raw) + slug_letters(more),
    decreases more.len(),
{
    if more.len() == 0 {
        assert(raw + more =~= raw);
        assert(slug_letters(raw) + slug_letters(more) =~= slug_letters(raw));
    } else {
        lemma_letters_join(raw, more.drop_last());
        assert((raw + more).drop_last() =~= raw + more.drop_last());
        assert((raw + more).last() == more.last());
        assert(slug_letters(raw + more) =~= slug_letters(raw) + slug_letters(more));
    }
}

proof fn lemma_plain_letters(raw: Seq<char>)
    requires
        slug_text(raw),
    ensures
        slug_letters(raw) == raw,
    decreases raw.len(),
{
    if raw.len() > 0 {
        let front = raw.drop_last();
        assert forall|i: int| 0 <= i < front.len() implies slug_char(#[trigger] front[i]) by {
            assert(raw[i] == front[i]);
        }
        lemma_plain_letters(front);
        assert(slug_char(raw[raw.len() - 1]));
        assert(front.push(raw.last()) =~= raw);
    } else {
        assert(slug_letters(raw) =~= raw);
    }
}

proof fn lemma_plain_hyphens(raw: Seq<char>)
    requires
        slug_text(raw),
        hyphens_apart(raw),
    ensures
        hyphenated(raw) == raw,
    decreases raw.len(),
{
    if raw.len() > 0 {
        let front = raw.drop_last();
        assert forall|i: int| 0 <= i < front.len() implies slug_char(#[trigger] front[i]) by {
            assert(raw[i] == front[i]);
        }
        assert forall|i: int, j: int| 0 <= i && j == i + 1 && j < front.len() implies !(
        #[trigger] front[i] == '-' && #[trigger] front[j] == '-') by {
            assert(raw[i] == front[i] && raw[j] == front[j]);
        }
        lemma_plain_hyphens(front);
        assert(slug_char(raw[raw.len() - 1]));
        if raw.len() >= 2 {
            assert(slug_char(raw[raw.len() - 2]));
            let i = raw.len() - 2;
            let j = raw.len() - 1;
            assert(!(raw[i] == '-' && raw[j] == '-'));
        }
        assert(front.push(raw.last()) =~= raw);
    } else {
        assert(hyphenated(raw) =~= raw);
    }
}

/// Part of a file name keeps letters of either case, digits, underscores, dots and hyphens,
/// and has one hyphen for whatever else stands between two of them. A text that is plain
/// already stays as it is.
pub proof fn file_stems_keep_plain_characters(raw: Seq<char>, c: char)
    ensures
        stem_char(c) <==> 48 <= c as int <= 57 || 97 <= c as int <= 122 || 65 <= c as int <= 90
            || c == '-' || c == '_' || c == '.',
        stem_char(c) && c != '-' ==> stem_letters(raw.push(c)) == stem_letters(raw).push(c),
        !stem_char(c) ==> stem_letters(raw.push(c)) == stem_letters(raw.push('-')),
        (forall|i: int| 0 <= i < raw.len() ==> stem_char(#[trigger] raw[i])) && hyphens_apart(raw)
            && raw.len() > 0 && raw[0] != '-' && raw.last() != '-' ==> file_stem(raw) == raw,
{
    assert(raw.push(c).drop_last() =~= raw);
    assert(raw.push('-').drop_last() =~= raw);
    if (forall|i: int| 0 <= i < raw.len() ==> stem_char(#[trigger] raw[i])) && hyphens_apart(raw)
        && raw.len() > 0 && raw[0] != '-' && raw.last() != '-' {
        lemma_plain_stem(raw);
        assert(text::trim_front(TrimSet::Hyphen, raw) == raw);
        assert(text::trim_back(TrimSet::Hyphen, raw) == raw);
    }
}

proof fn lemma_plain_stem(raw: Seq<char>)
    requires
        forall|i: int| 0 <= i < raw.len() ==> stem_char(#[trigger] raw[i]),
        hyphens_apart(raw),
    ensures
        stem_letters(raw) == raw,
    decreases raw.len(),
{
    if raw.len() > 0 {
        let front = raw.drop_last();
        assert forall|i: int| 0 <= i < front.len() implies stem_char(#[trigger] front[i]) by {
            assert(raw[i] == front[i]);
        }
        assert forall|i: int, j: int| 0 <= i && j == i + 1 && j < front.len() implies !(
        #[trigger] front[i] == '-' && #[trigger] front[j] == '-') by {
            assert(raw[i] == front[i] && raw[j] == front[j]);
        }
        lemma_plain_stem(front);
        assert(stem_char(raw[raw.len() - 1]));
        if raw.len() >= 2 {
            let i = raw.len() - 2;
            let j = raw.len() - 1;
            assert(!(raw[i] == '-' && raw[j] == '-'));
        }
        assert(front.push(raw.last()) =~= raw);
    } else {
        assert(stem_letters(raw) =~= raw);
    }
}

/// The traces of the charts of one simfile go to files of their own.
pub proof fn traces_have_files_of_their_own(stem: Option<Seq<char>>, a: nat, b: nat)
    requires
        trace_name(stem, a) == trace_name(stem, b),
    ensures
        a == b,
        text::ends_with(trace_name(stem, a), "-chart"@ + text::decimal(a) + ".json"@),
{
    let own = match stem {
        Some(own) => own,
        None => "simfile"@,
    };
    let head = "null-or-die-trace-"@ + file_stem(own) + "-chart"@;
    let (x, y) = (trace_name(stem, a), trace_name(stem, b));
    let end = ".json"@;
    assert(x =~= head + text::decimal(a) + end);
    assert(y =~= head + text::decimal(b) + end);
    assert(text::decimal(a) =~= x.subrange(head.len() as int, x.len() - end.len()));
    assert(text::decimal(b) =~= y.subrange(head.len() as int, y.len() - end.len()));
    text::lemma_decimal(a);
    text::lemma_decimal(b);
    let tail = "-chart"@ + text::decimal(a) + end;
    assert(x.skip(x.len() - tail.len()) =~= tail);
}

/// Plots are named by the title, the subtitle and the slot of their chart, in one slug, and by
/// the number of the chart where nothing is left of these. A name is never empty.
pub proof fn plots_are_named_by_their_charts(
    title: Seq<char>,
    subtitle: Seq<char>,
    steps_type: Seq<char>,
    difficulty: Seq<char>,
    chart_index: nat,
    paradigm: Seq<char>,
)
    ensures
        ({
            let slot = compat::abbreviation(steps_type, difficulty, chart_index, paradigm);
            let whole = title_of(title, subtitle).push(' ') + slot;
            let name = plot_stem(title, subtitle, steps_type, difficulty, chart_index, paradigm);
            &&& name.len() > 0
            &&& slug(whole).len() > 0 ==> name == slug(whole)
            &&& slug(whole).len() == 0 ==> name == "chart-"@ + text::decimal(chart_index)
        }),
{
    reveal_strlit(" ");
    assert(" "@ =~= seq![' ']);
    let slot = compat::abbreviation(steps_type, difficulty, chart_index, paradigm);
    assert(title_of(title, subtitle) + " "@ + slot =~= title_of(title, subtitle).push(' ') + slot);
    text::lemma_decimal(chart_index);
}

/// Hyphens and white space become hyphens, one for each run of them, and every other letter
/// stays as it is.
pub proof fn runs_become_one_hyphen(letters: Seq<char>, a: char, b: char)
    ensures
        ({
            let gap = |c: char|
                c == '-' || c as int == 32 || c as int == 9 || c as int == 10 || c as int == 12
                    || c as int == 13;
            &&& hyphenated(Seq::empty()) == Seq::<char>::empty()
            &&& !gap(a) ==> hyphenated(letters.push(a)) == hyphenated(letters).push(a)
            &&& gap(a) && (letters.len() == 0 || !gap(letters.last())) ==> hyphenated(
                letters.push(a),
            ) == hyphenated(letters).push('-')
            &&& gap(a) && gap(b) ==> hyphenated(letters.push(a).push(b)) == hyphenated(
                letters.push(a),
            )
        }),
{
    let one = letters.push(a);
    let two = one.push(b);
    assert(one.drop_last() =~= letters);
    assert(two.drop_last() =~= one);
    assert(two[two.len() - 2] == a);
    if letters.len() > 0 {
        assert(one[one.len() - 2] == letters.last());
    }
}

} // verus!
