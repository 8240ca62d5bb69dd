//! Which charts are traced.

use crate::text;
use crate::text::{
    chars_of, decimal_text, holds_part, join4, lower_chars, parse_number, same_text,
    string_of, to_lower, trim, trim_chars, TrimSet,
};
use vstd::prelude::*;

verus! {

/// Whether a setting is switched on: "1", "true", "yes" or "on", in either case
/// of letters and with white space round it.
pub open spec fn switched_on(raw: Option<Seq<char>>) -> bool {
    raw matches Some(value) && {
        let word = text::lower(text::trimmed(value));
        word == "1"@ || word == "true"@ || word == "yes"@ || word == "on"@
    }
}

pub fn env_bool(raw: Option<&str>) -> (on: bool)
    ensures
        on == switched_on(text::option_str_view(raw)),
{
    match raw {
        Some(value) => {
            let word: String = to_lower(&trim(value));
            same_text(&word, "1") || same_text(&word, "true") || same_text(&word, "yes")
                || same_text(&word, "on")
        },
        None => false,
    }
}

/// How many beats a trace keeps: 24, or what the setting says, but at least one.
pub open spec fn beats_kept(raw: Option<Seq<char>>) -> usize {
    match raw {
        Some(value) => match text::number_of(value) {
            Some(n) => if n == 0 {
                1
            } else {
                n
            },
            None => 24,
        },
        None => 24,
    }
}

pub open spec fn separator(c: char) -> bool {
    c == ',' || c == ';'
}

/// The pieces of a text between its separators.
pub open spec fn pieces(raw: Seq<char>) -> Seq<Seq<char>>
    decreases raw.len(),
{
    if raw.len() == 0 {
        seq![Seq::empty()]
    } else {
        let before = pieces(raw.drop_last());
        if separator(raw.last()) {
            before.push(Seq::empty())
        } else {
            before.drop_last().push(before.last().push(raw.last()))
        }
    }
}

/// The pieces without the white space round them, in small letters, but for
/// those of which nothing is left.
pub open spec fn tokens_in(list: Seq<Seq<char>>) -> Seq<Seq<char>>
    decreases list.len(),
{
    if list.len() == 0 {
        Seq::empty()
    } else {
        let before = tokens_in(list.drop_last());
        let own = text::trimmed(list.last());
        if own.len() == 0 {
            before
        } else {
            before.push(text::lower(own))
        }
    }
}

/// The tokens of a filter.
pub open spec fn tokens_of(raw: Option<Seq<char>>) -> Seq<Seq<char>> {
    match raw {
        Some(value) => tokens_in(pieces(value)),
        None => Seq::empty(),
    }
}

proof fn lemma_pieces(raw: Seq<char>)
    ensures
        pieces(raw).len() > 0,
    decreases raw.len(),
{
    if raw.len() > 0 {
        lemma_pieces(raw.drop_last());
    }
}

/// Adds the token of a piece, if it has one.
fn push_token(piece: &Vec<char>, out: &mut Vec<String>)
    ensures
        text::texts_view(final(out)@) == (if text::trimmed(piece@).len() == 0 {
            text::texts_view(old(out)@)
        } else {
            text::texts_view(old(out)@).push(text::lower(text::trimmed(piece@)))
        }),
{
    let ghost before = out@;
    let own: Vec<char> = trim_chars(TrimSet::White, piece);
    if own.len() > 0 {
        out.push(string_of(&lower_chars(&own)));
        assert(text::texts_view(out@) =~= text::texts_view(before).push(
            text::lower(text::trimmed(piece@)),
        ));
    }
}

fn filter_tokens(raw: &str) -> (out: Vec<String>)
    ensures
        text::texts_view(out@) == tokens_in(pieces(raw@)),
{
    let chars: Vec<char> = chars_of(raw);
    let mut out: Vec<String> = Vec::new();
    let mut piece: Vec<char> = Vec::new();
    let mut i: usize = 0;
    proof {
        assert(chars@.take(0) =~= Seq::<char>::empty());
        let one = pieces(chars@.take(0));
        assert(one.drop_last() =~= Seq::<Seq<char>>::empty());
        assert(text::texts_view(out@) =~= tokens_in(one.drop_last()));
        assert(piece@ =~= one.last());
    }
    while i < chars.len()
        invariant
            i <= chars.len(),
            text::texts_view(out@) == tokens_in(pieces(chars@.take(i as int)).drop_last()),
            piece@ == pieces(chars@.take(i as int)).last(),
        decreases chars.len() - i,
    {
        let c: char = chars[i];
        let ghost before = pieces(chars@.take(i as int));
        proof {
            assert(chars@.take(i + 1).drop_last() =~= chars@.take(i as int));
            lemma_pieces(chars@.take(i as int));
        }
        if c == ',' || c == ';' {
            push_token(&piece, &mut out);
            piece = Vec::new();
            proof {
                let after = pieces(chars@.take(i + 1));
                assert(after.drop_last() =~= before);
                assert(piece@ =~= after.last());
            }
        } else {
            piece.push(c);
            proof {
                let after = pieces(chars@.take(i + 1));
                assert(after.drop_last() =~= before.drop_last());
            }
        }
        i += 1;
    }
    assert(chars@.take(i as int) =~= chars@);
    proof {
        lemma_pieces(chars@);
    }
    push_token(&piece, &mut out);
    out
}

/// Which charts are traced, and how.
#[derive(Debug, Clone)]
pub struct TraceCtl {
    pub enabled: bool,
    pub keep: usize,
    pub tokens: Vec<String>,
    pub dump_dir: Option<String>,
}

impl TraceCtl {
    /// Reads the settings.
    pub fn from_settings(
        enabled: Option<&str>,
        keep: Option<&str>,
        filter: Option<&str>,
        dir: Option<&str>,
    ) -> (out: TraceCtl)
        ensures
            out.enabled == switched_on(text::option_str_view(enabled)),
            out.keep == beats_kept(text::option_str_view(keep)),
            text::texts_view(out.tokens@) == tokens_of(text::option_str_view(filter)),
            match dir {
                Some(value) => if text::trimmed(value@).len() == 0 {
                    out.dump_dir is None
                } else {
                    out.dump_dir is Some && out.dump_dir->Some_0@ == text::trimmed(value@)
                },
                None => out.dump_dir is None,
            },
    {
        let keep_count: usize = match keep {
            Some(value) => match parse_number(value) {
                Some(n) => if n == 0 {
                    1
                } else {
                    n
                },
                None => 24,
            },
            None => 24,
        };
        let tokens: Vec<String> = match filter {
            Some(value) => filter_tokens(value),
            None => Vec::new(),
        };
        assert(filter is None ==> text::texts_view(tokens@) =~= Seq::<Seq<char>>::empty());
        let dump_dir: Option<String> = match dir {
            Some(value) => {
                let own: String = trim(value);
                if own.as_str().is_empty() {
                    None
                } else {
                    Some(own)
                }
            },
            None => None,
        };
        TraceCtl { enabled: env_bool(enabled), keep: keep_count, tokens, dump_dir }
    }

    /// Whether a chart is traced: tracing is on, and there are no tokens or one
    /// of them stands in what the chart goes by.
    pub open spec fn picks(self, chart: Seq<char>) -> bool {
        self.enabled && (self.tokens.len() == 0 || exists|i: int|
            0 <= i < self.tokens.len() && text::contains(chart, #[trigger] self.tokens@[i]@))
    }

    pub fn matches(
        &self,
        simfile_path: &str,
        chart_index: usize,
        steps_type: &str,
        difficulty: &str,
        description: &str,
    ) -> (yes: bool)
        ensures
            yes == self.picks(
                text::lower(
                    chart_text(
                        simfile_path@,
                        chart_index as nat,
                        steps_type@,
                        difficulty@,
                        description@,
                    ),
                ),
            ),
    {
        if !self.enabled {
            return false;
        }
        if self.tokens.len() == 0 {
            return true;
        }
        let head: String = join4(simfile_path, "|", &decimal_text(chart_index), "|");
        let middle: String = join4(steps_type, "|", difficulty, "|");
        let whole: String = join4(&head, &middle, description, "");
        proof {
            reveal_strlit("");
            assert(whole@ =~= chart_text(
                simfile_path@,
                chart_index as nat,
                steps_type@,
                difficulty@,
                description@,
            ));
        }
        let hay: Vec<char> = lower_chars(&chars_of(&whole));
        let mut i: usize = 0;
        while i < self.tokens.len()
            invariant
                i <= self.tokens.len(),
                self.enabled,
                self.tokens.len() > 0,
                hay@ == text::lower(
                    chart_text(
                        simfile_path@,
                        chart_index as nat,
                        steps_type@,
                        difficulty@,
                        description@,
                    ),
                ),
                forall|k: int|
                    0 <= k < i ==> !text::contains(hay@, #[trigger] self.tokens@[k]@),
            decreases self.tokens.len() - i,
        {
            if holds_part(&hay, &chars_of(&self.tokens[i])) {
                return true;
            }
            i += 1;
        }
        false
    }
}

/// What a chart goes by: where it stands, its place there, and what it is.
pub open spec fn chart_text(
    simfile_path: Seq<char>,
    chart_index: nat,
    steps_type: Seq<char>,
    difficulty: Seq<char>,
    description: Seq<char>,
) -> Seq<char> {
    simfile_path + "|"@ + text::decimal(chart_index) + "|"@ + steps_type + "|"@ + difficulty + "|"@
        + description
}

/// No token of a filter is empty: a filter of separators and white space alone
/// lets every chart through.
pub proof fn tokens_are_not_empty(list: Seq<Seq<char>>)
    ensures
        forall|i: int| 0 <= i < tokens_in(list).len() ==> (#[trigger] tokens_in(list)[i]).len() > 0,
        tokens_in(list).len() <= list.len(),
    decreases list.len(),
{
    if list.len() > 0 {
        tokens_are_not_empty(list.drop_last());
    }
}

/// A setting is switched on by one of four words, in any case of letters and with any white
/// space round it, and by nothing else.
pub proof fn switches_ignore_case_and_ends(value: Seq<char>, same: Seq<char>)
    requires
        text::lower(text::trimmed(value)) == text::lower(text::trimmed(same)),
    ensures
        !switched_on(None),
        switched_on(Some(value)) == switched_on(Some(same)),
        text::trimmed(value) == value ==> (switched_on(Some(value)) <==> text::lower(value)
            == "1"@ || text::lower(value) == "true"@ || text::lower(value) == "yes"@
            || text::lower(value) == "on"@),
        switched_on(Some(value)) == switched_on(Some(text::trimmed(value))),
{
    text::only_white_ends_are_trimmed(value);
}

/// A trace keeps as many beats as the setting writes, one where it writes none, and
/// twenty-four where it writes no number or is not there.
pub proof fn kept_beats_are_as_written(n: usize, value: Seq<char>)
    ensures
        beats_kept(None) == 24,
        beats_kept(Some(text::decimal(n as nat))) == (if n == 0 {
            1
        } else {
            n
        }),
        text::number_of(value) is None ==> beats_kept(Some(value)) == 24,
        beats_kept(Some(value)) >= 1,
{
    text::decimal_reads_back(n);
}

/// The pieces of a text are what stands between its commas and semicolons: put together, with
/// one separator between any two, they are the text again, and none of them holds one.
pub proof fn pieces_are_cut_at_separators(raw: Seq<char>, more: Seq<char>, c: char)
    ensures
        pieces(raw).len() >= 1,
        c == ',' || c == ';' ==> pieces((raw.push(c)) + more) == pieces(raw) + pieces(more),
        (forall|i: int| 0 <= i < raw.len() ==> #[trigger] raw[i] != ',' && raw[i] != ';')
            ==> pieces(raw) == seq![raw],
    decreases more.len(),
{
    lemma_pieces_count(raw);
    if c == ',' || c == ';' {
        lemma_pieces_join(raw, more, c);
    }
    if forall|i: int| 0 <= i < raw.len() ==> #[trigger] raw[i] != ',' && raw[i] != ';' {
        lemma_one_piece(raw);
    }
}

proof fn lemma_pieces_count(raw: Seq<char>)
    ensures
        pieces(raw).len() >= 1,
    decreases raw.len(),
{
    if raw.len() > 0 {
        lemma_pieces_count(raw.drop_last());
    }
}

proof fn lemma_one_piece(raw: Seq<char>)
    requires
        forall|i: int| 0 <= i < raw.len() ==> #[trigger] raw[i] != ',' && raw[i] != ';',
    ensures
        pieces(raw) == seq![raw],
    decreases raw.len(),
{
    if raw.len() == 0 {
        assert(raw =~= Seq::<char>::empty());
    } else {
        let front = raw.drop_last();
        assert forall|i: int| 0 <= i < front.len() implies #[trigger] front[i] != ',' && front[i]
            != ';' by {
            assert(raw[i] == front[i]);
        }
        lemma_one_piece(front);
        assert(raw[raw.len() - 1] != ',' && raw[raw.len() - 1] != ';');
        assert(front.push(raw.last()) =~= raw);
        assert(pieces(raw) =~= seq![raw]);
    }
}

proof fn lemma_pieces_join(raw: Seq<char>, more: Seq<char>, c: char)
    requires
        c == ',' || c == ';',
    ensures
        pieces((raw.push(c)) + more) == pieces(raw) + pieces(more),
    decreases more.len(),
{
    let whole = raw.push(c) + more;
    if more.len() == 0 {
        assert(whole.drop_last() =~= raw);
        assert(whole.last() == c);
        assert(more =~= Seq::<char>::empty());
        assert(pieces(whole) =~= pieces(raw) + pieces(more));
    } else {
        lemma_pieces_join(raw, more.drop_last(), c);
        lemma_pieces_count(more.drop_last());
        assert(whole.drop_last() =~= raw.push(c) + more.drop_last());
        assert(whole.last() == more.last());
        assert(pieces(whole) =~= pieces(raw) + pieces(more));
    }
}

/// A token is left of every piece that holds more than white space: the piece without the
/// white space round it, in small letters. The order of the pieces is kept.
pub proof fn tokens_follow_their_pieces(list: Seq<Seq<char>>, next: Seq<char>)
    ensures
        tokens_in(Seq::empty()) == Seq::<Seq<char>>::empty(),
        text::trimmed(next).len() > 0 ==> tokens_in(list.push(next)) == tokens_in(list).push(
            text::lower(text::trimmed(next)),
        ),
        text::trimmed(next).len() == 0 ==> tokens_in(list.push(next)) == tokens_in(list),
        tokens_of(None) == Seq::<Seq<char>>::empty(),
{
    assert(list.push(next).drop_last() =~= list);
}

/// A chart goes by all that is known of it: its simfile, its number, its type of steps, its
/// difficulty and its description each stand in the text that it is picked by.
pub proof fn charts_go_by_all_they_are(
    simfile_path: Seq<char>,
    chart_index: nat,
    steps_type: Seq<char>,
    difficulty: Seq<char>,
    description: Seq<char>,
)
    ensures
        ({
            let all = chart_text(simfile_path, chart_index, steps_type, difficulty, description);
            &&& text::contains(all, simfile_path)
            &&& text::contains(all, "|"@ + text::decimal(chart_index) + "|"@)
            &&& text::contains(all, "|"@ + steps_type + "|"@)
            &&& text::contains(all, "|"@ + difficulty + "|"@)
            &&& text::ends_with(all, "|"@ + description)
        }),
{
    let bar = "|"@;
    let index = text::decimal(chart_index);
    let all = chart_text(simfile_path, chart_index, steps_type, difficulty, description);
    let head = simfile_path + bar + index + bar + steps_type;
    let end = bar + description;
    assert(text::contains(all, simfile_path)) by {
        let rest = bar + index + bar + steps_type + bar + difficulty + end;
        lemma_holds(all, Seq::empty(), simfile_path, rest);
    }
    assert(text::contains(all, bar + index + bar)) by {
        let rest = steps_type + bar + difficulty + end;
        lemma_holds(all, simfile_path, bar + index + bar, rest);
    }
    assert(text::contains(all, bar + steps_type + bar)) by {
        lemma_holds(all, simfile_path + bar + index, bar + steps_type + bar, difficulty + end);
    }
    assert(text::contains(all, bar + difficulty + bar)) by {
        lemma_holds(all, head, bar + difficulty + bar, description);
    }
    assert(text::ends_with(all, end)) by {
        assert(all.skip(all.len() - end.len()) =~= end);
    }
}

proof fn lemma_holds(all: Seq<char>, before: Seq<char>, part: Seq<char>, behind: Seq<char>)
    requires
        all =~= before + part + behind,
    ensures
        text::contains(all, part),
{
    text::parts_are_found_where_they_stand(before, part, behind, all);
}

/// Nothing is traced where tracing is off. Where it is on, every chart is traced without a
/// filter, and with one just those that some token of it stands in; the tokens are those of the
/// pieces of the filter.
pub proof fn filters_pick_what_they_name(ctl: TraceCtl, chart: Seq<char>, raw: Seq<char>, i: int)
    ensures
        !ctl.enabled ==> !ctl.picks(chart),
        ctl.enabled && ctl.tokens.len() == 0 ==> ctl.picks(chart),
        ctl.enabled && 0 <= i < ctl.tokens.len() && text::contains(chart, ctl.tokens@[i]@)
            ==> ctl.picks(chart),
        ctl.tokens.len() > 0 && (forall|k: int|
            0 <= k < ctl.tokens.len() ==> !text::contains(chart, #[trigger] ctl.tokens@[k]@))
            ==> !ctl.picks(chart),
        tokens_of(Some(raw)) == tokens_in(pieces(raw)),
{
}

} // verus!
