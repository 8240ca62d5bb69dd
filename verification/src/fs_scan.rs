//! Which simfiles there are, and where their baselines stand.

use crate::paths;
use crate::paths::{
    copy_path, has_ext, is_simfile_path, parts_side, ByPath, PathView, Side, SimPath,
};
use crate::sorting;
use crate::sorting::sort_places;
use crate::text;
use crate::text::{chars_of, join2, join4, part_of, string_of};
use vstd::prelude::*;

verus! {

// ---------------------------------------------------------------------------
// Simfiles
// ---------------------------------------------------------------------------

/// What stands at the root of a search.
#[derive(Debug, Clone, Copy, PartialEq, Eq, Structural)]
pub enum RootKind {
    File,
    Directory,
    Neither,
}

/// Something that a walk through a directory came across.
#[derive(Debug, Clone)]
pub struct WalkEntry {
    pub path: SimPath,
    pub is_file: bool,
}

/// The simfiles among what a walk came across.
pub open spec fn simfiles_in(entries: Seq<WalkEntry>) -> Seq<PathView>
    decreases entries.len(),
{
    if entries.len() == 0 {
        Seq::empty()
    } else {
        let before = simfiles_in(entries.drop_last());
        let last = entries.last();
        if last.is_file && last.path@.simfile() {
            before.push(last.path@)
        } else {
            before
        }
    }
}

pub open spec fn views(paths: Seq<SimPath>) -> Seq<PathView> {
    paths.map_values(|p: SimPath| p@)
}

/// The simfiles that a walk came across.
pub fn collect_simfile_paths(entries: &Vec<WalkEntry>) -> (out: Vec<SimPath>)
    ensures
        views(out@) == simfiles_in(entries@),
{
    let mut out: Vec<SimPath> = Vec::new();
    let mut i: usize = 0;
    assert(entries@.take(0) =~= Seq::<WalkEntry>::empty());
    assert(views(out@) =~= simfiles_in(entries@.take(0)));
    while i < entries.len()
        invariant
            i <= entries.len(),
            views(out@) == simfiles_in(entries@.take(i as int)),
        decreases entries.len() - i,
    {
        assert(entries@.take(i + 1).drop_last() =~= entries@.take(i as int));
        let ghost before = out@;
        if entries[i].is_file && is_simfile_path(&entries[i].path) {
            out.push(copy_path(&entries[i].path));
            assert(views(out@) =~= views(before).push(entries@[i as int].path@));
        }
        i += 1;
    }
    assert(entries@.take(i as int) =~= entries@);
    out
}

/// Whether `sorted` holds the paths of `found` in the order of their parts, and
/// paths of the same parts in the order in which they were found.
pub open spec fn in_path_order(found: Seq<PathView>, sorted: Seq<PathView>) -> bool {
    exists|places: Seq<usize>| #[trigger] places_in_order(found, sorted, places)
}

pub open spec fn places_in_order(
    found: Seq<PathView>,
    sorted: Seq<PathView>,
    places: Seq<usize>,
) -> bool {
    &&& sorting::arranges(places, 0, found.len() as int)
    &&& sorted.len() == found.len()
    &&& forall|k: int| 0 <= k < sorted.len() ==> #[trigger] sorted[k] == found[places[k] as int]
    &&& forall|a: int, b: int|
        0 <= a < b < sorted.len() ==> paths::keys_less(
            (#[trigger] sorted[a]).parts,
            (#[trigger] sorted[b]).parts,
        ) || (sorted[a].parts == sorted[b].parts && places[a] < places[b])
}

fn sort_paths(found: Vec<SimPath>) -> (sorted: Vec<SimPath>)
    ensures
        in_path_order(views(found@), views(sorted@)),
{
    let list: ByPath = ByPath { paths: found };
    let places: Vec<usize> = sort_places(&list);
    let mut sorted: Vec<SimPath> = Vec::new();
    let mut i: usize = 0;
    while i < places.len()
        invariant
            i <= places.len(),
            sorting::arranges(places@, 0, list.paths.len() as int),
            sorted.len() == i,
            forall|k: int|
                0 <= k < i ==> (#[trigger] sorted@[k])@ == list.paths@[places@[k] as int]@,
        decreases places.len() - i,
    {
        sorted.push(copy_path(&list.paths[places[i]]));
        i += 1;
    }
    proof {
        let f = views(list.paths@);
        let s = views(sorted@);
        assert forall|k: int| 0 <= k < s.len() implies #[trigger] s[k] == f[places@[k] as int] by {
            assert(sorted@[k]@ == list.paths@[places@[k] as int]@);
        }
        assert forall|a: int, b: int| 0 <= a < b < s.len() implies paths::keys_less(
            (#[trigger] s[a]).parts,
            (#[trigger] s[b]).parts,
        ) || (s[a].parts == s[b].parts && places@[a] < places@[b]) by {
            assert(sorting::precedes(&list, places@[a] as int, places@[b] as int));
            assert(s[a] == f[places@[a] as int]);
            assert(s[b] == f[places@[b] as int]);
            paths::lemma_keys_order(s[a].parts, s[b].parts);
        }
        assert(places_in_order(f, s, places@));
    }
    sorted
}

/// Whether `i` is the first of the paths that lie in its directory.
pub open spec fn opens_directory(listing: Seq<PathView>, n: int, i: int) -> bool {
    &&& 0 <= i < n
    &&& listing[i].parented()
    &&& forall|j: int|
        0 <= j < i && (#[trigger] listing[j]).parented() ==> listing[j].dir() != listing[i].dir()
}

/// Whether `p` is the path, of the first `n`, that stands for its directory: the
/// first path there, but the first ssc file where that one is an sm file and
/// there is an ssc file.
pub open spec fn stands_for_directory(listing: Seq<PathView>, n: int, p: int) -> bool {
    &&& 0 <= p < n
    &&& listing[p].parented()
    &&& ({
        ||| opens_directory(listing, n, p) && (listing[p].with_ext("sm"@) ==> forall|j: int|
            0 <= j < n && (#[trigger] listing[j]).parented() && listing[j].dir() == listing[p].dir()
                ==> !listing[j].with_ext("ssc"@))
        ||| {
            &&& listing[p].with_ext("ssc"@)
            &&& exists|f: int|
                f < p && #[trigger] opens_directory(listing, n, f) && listing[f].with_ext("sm"@)
                    && listing[f].dir() == listing[p].dir()
            &&& forall|j: int|
                0 <= j < p && (#[trigger] listing[j]).parented() && listing[j].dir()
                    == listing[p].dir() ==> !listing[j].with_ext("ssc"@)
        }
    })
}

/// Whether `picks` holds one path for each directory of the first `n` paths, in
/// the order of the directories.
pub open spec fn picks_by_directory(listing: Seq<PathView>, n: int, picks: Seq<usize>) -> bool {
    &&& forall|a: int|
        0 <= a < picks.len() ==> stands_for_directory(listing, n, #[trigger] picks[a] as int)
    &&& forall|a: int, b: int|
        0 <= a < b < picks.len() ==> paths::keys_less(
            listing[#[trigger] picks[a] as int].dir(),
            listing[#[trigger] picks[b] as int].dir(),
        )
    &&& forall|i: int|
        0 <= i < n && listing[i].parented() ==> #[trigger] represented(listing, picks, i)
}

/// Whether the directory of the path at `i` has a path that stands for it.
pub open spec fn represented(listing: Seq<PathView>, picks: Seq<usize>, i: int) -> bool {
    exists|a: int|
        0 <= a < picks.len() && listing[#[trigger] picks[a] as int].dir() == listing[i].dir()
}

/// Where the directory of a path stands to that of another.
fn dir_side(a: &SimPath, b: &SimPath) -> (side: Side)
    requires
        a@.parented(),
        b@.parented(),
    ensures
        side == (if a@.dir() == b@.dir() {
            Side::Same
        } else if paths::keys_less(a@.dir(), b@.dir()) {
            Side::Before
        } else {
            Side::After
        }),
{
    let n: usize = a.parts.len() - 1;
    let m: usize = b.parts.len() - 1;
    assert(paths::path_key(a.parts@.take(n as int)) =~= a@.dir());
    assert(paths::path_key(b.parts@.take(m as int)) =~= b@.dir());
    parts_side(&a.parts, n, &b.parts, m)
}

/// The first place in `picks` whose directory does not come before that of the
/// path at `i`.
fn place_for(paths: &Vec<SimPath>, picks: &Vec<usize>, i: usize) -> (at: usize)
    requires
        i < paths.len(),
        paths@[i as int]@.parented(),
        forall|a: int|
            0 <= a < picks.len() ==> #[trigger] picks@[a] < paths.len()
                && paths@[picks@[a] as int]@.parented(),
        forall|a: int, b: int|
            0 <= a < b < picks.len() ==> paths::keys_less(
                paths@[#[trigger] picks@[a] as int]@.dir(),
                paths@[#[trigger] picks@[b] as int]@.dir(),
            ),
    ensures
        at <= picks.len(),
        forall|a: int|
            0 <= a < at ==> paths::keys_less(
                paths@[#[trigger] picks@[a] as int]@.dir(),
                paths@[i as int]@.dir(),
            ),
        forall|a: int|
            at <= a < picks.len() ==> !paths::keys_less(
                paths@[#[trigger] picks@[a] as int]@.dir(),
                paths@[i as int]@.dir(),
            ),
{
    let ghost d = paths@[i as int]@.dir();
    let mut lo: usize = 0;
    let mut hi: usize = picks.len();
    while lo < hi
        invariant
            lo <= hi <= picks.len(),
            i < paths.len(),
            d == paths@[i as int]@.dir(),
            paths@[i as int]@.parented(),
            forall|a: int|
                0 <= a < picks.len() ==> #[trigger] picks@[a] < paths.len()
                    && paths@[picks@[a] as int]@.parented(),
            forall|a: int, b: int|
                0 <= a < b < picks.len() ==> paths::keys_less(
                    paths@[#[trigger] picks@[a] as int]@.dir(),
                    paths@[#[trigger] picks@[b] as int]@.dir(),
                ),
            forall|a: int|
                0 <= a < lo ==> paths::keys_less(paths@[#[trigger] picks@[a] as int]@.dir(), d),
            forall|a: int|
                hi <= a < picks.len() ==> !paths::keys_less(
                    paths@[#[trigger] picks@[a] as int]@.dir(),
                    d,
                ),
        decreases hi - lo,
    {
        let mid: usize = lo + (hi - lo) / 2;
        let ghost dm = paths@[picks@[mid as int] as int]@.dir();
        match dir_side(&paths[picks[mid]], &paths[i]) {
            Side::Before => {
                proof {
                    paths::lemma_keys_order(dm, d);
                    assert forall|a: int| 0 <= a < mid + 1 implies paths::keys_less(
                        paths@[#[trigger] picks@[a] as int]@.dir(),
                        d,
                    ) by {
                        if a < mid {
                            paths::lemma_keys_transitive(
                                paths@[picks@[a] as int]@.dir(),
                                dm,
                                d,
                            );
                        }
                    }
                }
                lo = mid + 1;
            },
            _ => {
                proof {
                    paths::lemma_keys_order(dm, d);
                    assert forall|a: int| mid <= a < picks.len() implies !paths::keys_less(
                        paths@[#[trigger] picks@[a] as int]@.dir(),
                        d,
                    ) by {
                        let da = paths@[picks@[a] as int]@.dir();
                        if a > mid && paths::keys_less(da, d) {
                            paths::lemma_keys_transitive(dm, da, d);
                        }
                    }
                }
                hi = mid;
            },
        }
    }
    lo
}

/// Takes the path at `i` into account, as the next one.
proof fn lemma_pick_replaced(
    listing: Seq<PathView>,
    i: int,
    before: Seq<usize>,
    after: Seq<usize>,
    at: int,
)
    requires
        0 <= i < listing.len() <= usize::MAX,
        picks_by_directory(listing, i, before),
        listing[i].parented(),
        0 <= at < before.len(),
        listing[before[at] as int].dir() == listing[i].dir(),
        after == (if listing[before[at] as int].with_ext("sm"@) && listing[i].with_ext("ssc"@) {
            before.update(at, i as usize)
        } else {
            before
        }),
    ensures
        picks_by_directory(listing, i + 1, after),
{
    let p = before[at] as int;
    let moved = listing[p].with_ext("sm"@) && listing[i].with_ext("ssc"@);
    assert(stands_for_directory(listing, i, p));
    assert forall|a: int| 0 <= a < after.len() implies stands_for_directory(
        listing,
        i + 1,
        #[trigger] after[a] as int,
    ) by {
        if a == at {
            if moved {
                assert(!(listing[p].with_ext("ssc"@))) by {
                    lemma_sm_is_not_ssc(listing[p]);
                }
                assert(opens_directory(listing, i, p));
                assert(opens_directory(listing, i + 1, p));
                assert(stands_for_directory(listing, i + 1, i));
            } else {
                lemma_still_stands(listing, i, p);
            }
        } else {
            let q = before[a] as int;
            assert(stands_for_directory(listing, i, q));
            if a < at {
                assert(paths::keys_less(
                    listing[before[a] as int].dir(),
                    listing[before[at] as int].dir(),
                ));
            } else {
                assert(paths::keys_less(
                    listing[before[at] as int].dir(),
                    listing[before[a] as int].dir(),
                ));
            }
            paths::lemma_keys_order(listing[q].dir(), listing[i].dir());
            lemma_still_stands(listing, i, q);
        }
    }
    assert forall|a: int, b: int| 0 <= a < b < after.len() implies paths::keys_less(
        listing[#[trigger] after[a] as int].dir(),
        listing[#[trigger] after[b] as int].dir(),
    ) by {
        assert(paths::keys_less(
            listing[before[a] as int].dir(),
            listing[before[b] as int].dir(),
        ));
    }
    assert forall|k: int| 0 <= k < i + 1 && listing[k].parented() implies #[trigger] represented(
        listing,
        after,
        k,
    ) by {
        if k == i {
            assert(listing[after[at] as int].dir() == listing[k].dir());
        } else {
            assert(represented(listing, before, k));
            let a = choose|a: int|
                0 <= a < before.len() && listing[#[trigger] before[a] as int].dir()
                    == listing[k].dir();
            assert(listing[after[a] as int].dir() == listing[k].dir());
        }
    }
}

proof fn lemma_sm_is_not_ssc(path: PathView)
    ensures
        path.with_ext("sm"@) ==> !path.with_ext("ssc"@),
{
    reveal_strlit("sm");
    reveal_strlit("ssc");
    assert(text::lower("sm"@).len() == 2);
    assert(text::lower("ssc"@).len() == 3);
}

/// A path that stands for its directory still does where the next path lies
/// elsewhere or does not take its place.
proof fn lemma_still_stands(listing: Seq<PathView>, i: int, p: int)
    requires
        0 <= i < listing.len(),
        stands_for_directory(listing, i, p),
        !(listing[i].parented() && listing[i].dir() == listing[p].dir()
            && listing[p].with_ext("sm"@) && listing[i].with_ext("ssc"@)),
    ensures
        stands_for_directory(listing, i + 1, p),
{
    if opens_directory(listing, i, p) && (listing[p].with_ext("sm"@) ==> forall|j: int|
        0 <= j < i && (#[trigger] listing[j]).parented() && listing[j].dir() == listing[p].dir()
            ==> !listing[j].with_ext("ssc"@)) {
        assert(opens_directory(listing, i + 1, p));
    } else {
        let f = choose|f: int|
            f < p && #[trigger] opens_directory(listing, i, f) && listing[f].with_ext("sm"@)
                && listing[f].dir() == listing[p].dir();
        assert(opens_directory(listing, i + 1, f));
    }
}

proof fn lemma_pick_inserted(
    listing: Seq<PathView>,
    i: int,
    before: Seq<usize>,
    after: Seq<usize>,
    at: int,
)
    requires
        0 <= i < listing.len() <= usize::MAX,
        picks_by_directory(listing, i, before),
        listing[i].parented(),
        0 <= at <= before.len(),
        forall|a: int|
            0 <= a < at ==> paths::keys_less(
                listing[#[trigger] before[a] as int].dir(),
                listing[i].dir(),
            ),
        forall|a: int|
            at <= a < before.len() ==> paths::keys_less(
                listing[i].dir(),
                listing[#[trigger] before[a] as int].dir(),
            ),
        after == before.insert(at, i as usize),
    ensures
        picks_by_directory(listing, i + 1, after),
{
    assert forall|a: int| 0 <= a < before.len() implies listing[#[trigger] before[a] as int].dir()
        != listing[i].dir() by {
        paths::lemma_keys_order(listing[before[a] as int].dir(), listing[i].dir());
    }
    assert(opens_directory(listing, i + 1, i)) by {
        assert forall|j: int|
            0 <= j < i && (#[trigger] listing[j]).parented() implies listing[j].dir()
            != listing[i].dir() by {
            assert(represented(listing, before, j));
            let a = choose|a: int|
                0 <= a < before.len() && listing[#[trigger] before[a] as int].dir()
                    == listing[j].dir();
            assert(listing[before[a] as int].dir() != listing[i].dir());
        }
    }
    lemma_sm_is_not_ssc(listing[i]);
    assert(stands_for_directory(listing, i + 1, i));
    assert forall|a: int| 0 <= a < after.len() implies stands_for_directory(
        listing,
        i + 1,
        #[trigger] after[a] as int,
    ) by {
        if a != at {
            let b = if a < at {
                a
            } else {
                a - 1
            };
            assert(after[a] == before[b]);
            assert(stands_for_directory(listing, i, before[b] as int));
            lemma_still_stands(listing, i, before[b] as int);
        }
    }
    assert forall|a: int, b: int| 0 <= a < b < after.len() implies paths::keys_less(
        listing[#[trigger] after[a] as int].dir(),
        listing[#[trigger] after[b] as int].dir(),
    ) by {
        let a0 = if a < at {
            a
        } else {
            a - 1
        };
        let b0 = if b < at {
            b
        } else {
            b - 1
        };
        if a != at {
            assert(after[a] == before[a0]);
        }
        if b != at {
            assert(after[b] == before[b0]);
        }
    }
    assert forall|k: int| 0 <= k < i + 1 && listing[k].parented() implies #[trigger] represented(
        listing,
        after,
        k,
    ) by {
        if k == i {
            assert(listing[after[at] as int].dir() == listing[k].dir());
        } else {
            assert(represented(listing, before, k));
            let a = choose|a: int|
                0 <= a < before.len() && listing[#[trigger] before[a] as int].dir()
                    == listing[k].dir();
            let a1 = if a < at {
                a
            } else {
                a + 1
            };
            assert(after[a1] == before[a]);
            assert(listing[after[a1] as int].dir() == listing[k].dir());
        }
    }
}

/// What picks say of the paths themselves.
proof fn lemma_picks_of_paths(paths: Seq<SimPath>, i: int, picks: Seq<usize>)
    requires
        0 <= i <= paths.len(),
        picks_by_directory(views(paths), i, picks),
    ensures
        forall|a: int|
            0 <= a < picks.len() ==> #[trigger] picks[a] < i && paths[picks[a] as int]@.parented()
                && views(paths)[picks[a] as int] == paths[picks[a] as int]@,
        forall|a: int, b: int|
            0 <= a < b < picks.len() ==> paths::keys_less(
                paths[#[trigger] picks[a] as int]@.dir(),
                paths[#[trigger] picks[b] as int]@.dir(),
            ),
{
    let listing = views(paths);
    assert forall|a: int| 0 <= a < picks.len() implies #[trigger] picks[a] < i
        && paths[picks[a] as int]@.parented() && listing[picks[a] as int]
        == paths[picks[a] as int]@ by {
        assert(stands_for_directory(listing, i, picks[a] as int));
    }
    assert forall|a: int, b: int| 0 <= a < b < picks.len() implies paths::keys_less(
        paths[#[trigger] picks[a] as int]@.dir(),
        paths[#[trigger] picks[b] as int]@.dir(),
    ) by {
        assert(paths::keys_less(listing[picks[a] as int].dir(), listing[picks[b] as int].dir()));
    }
}

/// Where no directory before `at` reaches that of a path and none from there on
/// falls short of it, and the one at `at` is another, all from there on lie behind it.
proof fn lemma_dirs_behind(
    listing: Seq<PathView>,
    picks: Seq<usize>,
    d: Seq<Seq<u8>>,
    at: int,
    a: int,
)
    requires
        0 <= at <= a < picks.len(),
        forall|x: int, y: int|
            0 <= x < y < picks.len() ==> paths::keys_less(
                listing[#[trigger] picks[x] as int].dir(),
                listing[#[trigger] picks[y] as int].dir(),
            ),
        !paths::keys_less(listing[picks[at] as int].dir(), d),
        listing[picks[at] as int].dir() != d,
    ensures
        paths::keys_less(d, listing[picks[a] as int].dir()),
{
    let first = listing[picks[at] as int].dir();
    paths::lemma_keys_order(first, d);
    if at < a {
        paths::lemma_keys_transitive(d, first, listing[picks[a] as int].dir());
    }
}

/// Takes the path at `i` into account, behind those before it.
fn pick_next(paths: &Vec<SimPath>, picks: &mut Vec<usize>, i: usize)
    requires
        i < paths.len(),
        picks_by_directory(views(paths@), i as int, old(picks)@),
    ensures
        picks_by_directory(views(paths@), i + 1, final(picks)@),
{
    let ghost listing = views(paths@);
    let ghost before = picks@;
    proof {
        lemma_picks_of_paths(paths@, i as int, before);
        assert(listing[i as int] == paths@[i as int]@);
    }
    if !paths[i].has_parent() {
        proof {
            assert forall|a: int| 0 <= a < picks.len() implies stands_for_directory(
                listing,
                i + 1,
                #[trigger] picks@[a] as int,
            ) by {
                lemma_still_stands(listing, i as int, picks@[a] as int);
            }
            assert forall|k: int|
                0 <= k < i + 1 && listing[k].parented() implies #[trigger] represented(
                listing,
                picks@,
                k,
            ) by {}
        }
        return;
    }
    let at: usize = place_for(paths, picks, i);
    let found: bool = if at < picks.len() {
        match dir_side(&paths[picks[at]], &paths[i]) {
            Side::Same => true,
            _ => false,
        }
    } else {
        false
    };
    if found {
        if has_ext(&paths[picks[at]], "sm") && has_ext(&paths[i], "ssc") {
            picks.set(at, i);
        }
        proof {
            lemma_pick_replaced(listing, i as int, before, picks@, at as int);
        }
    } else {
        proof {
            let d = listing[i as int].dir();
            assert forall|a: int| at <= a < before.len() implies paths::keys_less(
                d,
                listing[#[trigger] before[a] as int].dir(),
            ) by {
                lemma_dirs_behind(listing, before, d, at as int, a);
            }
        }
        picks.insert(at, i);
        proof {
            lemma_pick_inserted(listing, i as int, before, picks@, at as int);
        }
    }
}

/// The places of the paths that stand for their directories.
fn directory_picks(paths: &Vec<SimPath>) -> (picks: Vec<usize>)
    ensures
        picks_by_directory(views(paths@), paths.len() as int, picks@),
{
    let mut picks: Vec<usize> = Vec::new();
    let mut i: usize = 0;
    while i < paths.len()
        invariant
            i <= paths.len(),
            picks_by_directory(views(paths@), i as int, picks@),
        decreases paths.len() - i,
    {
        pick_next(paths, &mut picks, i);
        i += 1;
    }
    picks
}

/// Whether `out` holds the paths that stand for the directories of `listing`.
pub open spec fn picked(listing: Seq<PathView>, out: Seq<PathView>) -> bool {
    exists|picks: Seq<usize>|
        {
            &&& #[trigger] picks_by_directory(listing, listing.len() as int, picks)
            &&& out.len() == picks.len()
            &&& forall|a: int|
                0 <= a < out.len() ==> #[trigger] out[a] == listing[picks[a] as int]
        }
}

/// One path for each directory.
pub fn pick_by_directory(paths: Vec<SimPath>) -> (out: Vec<SimPath>)
    ensures
        picked(views(paths@), views(out@)),
{
    let picks: Vec<usize> = directory_picks(&paths);
    let mut out: Vec<SimPath> = Vec::new();
    let mut i: usize = 0;
    while i < picks.len()
        invariant
            i <= picks.len(),
            picks_by_directory(views(paths@), paths.len() as int, picks@),
            out.len() == i,
            forall|a: int|
                0 <= a < i ==> (#[trigger] out@[a])@ == views(paths@)[picks@[a] as int],
        decreases picks.len() - i,
    {
        assert(stands_for_directory(views(paths@), paths.len() as int, picks@[i as int] as int));
        out.push(copy_path(&paths[picks[i]]));
        i += 1;
    }
    proof {
        assert(picks_by_directory(views(paths@), views(paths@).len() as int, picks@));
        assert forall|a: int| 0 <= a < out.len() implies #[trigger] views(out@)[a] == views(
            paths@,
        )[picks@[a] as int] by {
            assert(out@[a]@ == views(paths@)[picks@[a] as int]);
        }
    }
    out
}

/// Whether `out` holds the simfiles of a directory: of what a walk came across,
/// sorted, one for each directory.
pub open spec fn discovered(entries: Seq<WalkEntry>, out: Seq<PathView>) -> bool {
    exists|listing: Seq<PathView>| #[trigger]
        in_path_order(simfiles_in(entries), listing) && picked(listing, out)
}

/// Whether `found` holds the simfiles at a root: the root itself where it is a
/// simfile, or those that a walk through it came across.
pub open spec fn found_at(
    root: PathView,
    kind: RootKind,
    entries: Seq<WalkEntry>,
    found: Seq<PathView>,
) -> bool {
    match kind {
        RootKind::File => root.simfile() && found == seq![root],
        RootKind::Neither => false,
        RootKind::Directory => discovered(entries, found),
    }
}

/// Why there are no simfiles at a root, if there can be none.
pub open spec fn root_fault(root: PathView, kind: RootKind) -> Option<Seq<char>> {
    match kind {
        RootKind::File => if root.simfile() {
            None
        } else {
            Some("not a simfile: "@ + root.text)
        },
        RootKind::Neither => Some("root path does not exist: "@ + root.text),
        RootKind::Directory => None,
    }
}

/// The simfiles at a root. `entries` is what a walk through it came across.
pub fn discover_simfiles(root: &SimPath, kind: RootKind, entries: &Vec<WalkEntry>) -> (out: Result<
    Vec<SimPath>,
    String,
>)
    ensures
        match out {
            Ok(found) => root_fault(root@, kind) is None && found_at(
                root@,
                kind,
                entries@,
                views(found@),
            ),
            Err(e) => root_fault(root@, kind) == Some(e@),
        },
{
    match kind {
        RootKind::File => {
            if is_simfile_path(root) {
                let mut out: Vec<SimPath> = Vec::new();
                out.push(copy_path(root));
                assert(views(out@) =~= seq![root@]);
                Ok(out)
            } else {
                Err(join2("not a simfile: ", &root.text))
            }
        },
        RootKind::Neither => Err(join2("root path does not exist: ", &root.text)),
        RootKind::Directory => {
            let sorted: Vec<SimPath> = sort_paths(collect_simfile_paths(entries));
            Ok(pick_by_directory(sorted))
        },
    }
}

/// A directory gives one simfile, and it is an ssc file wherever the directory
/// holds one.
pub proof fn one_simfile_for_each_directory(
    listing: Seq<PathView>,
    picks: Seq<usize>,
    a: int,
    b: int,
    i: int,
)
    requires
        picks_by_directory(listing, listing.len() as int, picks),
        forall|k: int| 0 <= k < listing.len() ==> (#[trigger] listing[k]).simfile(),
        0 <= a < picks.len(),
        0 <= b < picks.len(),
        0 <= i < listing.len(),
        listing[i].parented(),
        listing[i].dir() == listing[picks[a] as int].dir(),
    ensures
        listing[picks[a] as int].dir() == listing[picks[b] as int].dir() ==> a == b,
        listing[i].with_ext("ssc"@) ==> listing[picks[a] as int].with_ext("ssc"@),
{
    paths::lemma_keys_order(listing[picks[a] as int].dir(), listing[picks[b] as int].dir());
    let p = picks[a] as int;
    assert(stands_for_directory(listing, listing.len() as int, p));
    assert(listing[p].simfile());
}

/// Picking one path for each directory of paths that were picked picks all of them.
pub proof fn picking_twice_changes_nothing(
    listing: Seq<PathView>,
    once: Seq<PathView>,
    twice: Seq<PathView>,
)
    requires
        picked(listing, once),
        picked(once, twice),
    ensures
        twice == once,
{
    let first = choose|picks: Seq<usize>|
        {
            &&& #[trigger] picks_by_directory(listing, listing.len() as int, picks)
            &&& once.len() == picks.len()
            &&& forall|a: int|
                0 <= a < once.len() ==> #[trigger] once[a] == listing[picks[a] as int]
        };
    let second = choose|picks: Seq<usize>|
        {
            &&& #[trigger] picks_by_directory(once, once.len() as int, picks)
            &&& twice.len() == picks.len()
            &&& forall|a: int| 0 <= a < twice.len() ==> #[trigger] twice[a] == once[picks[a] as int]
        };
    assert forall|a: int, b: int| 0 <= a < b < once.len() implies paths::keys_less(
        (#[trigger] once[a]).dir(),
        (#[trigger] once[b]).dir(),
    ) by {
        assert(paths::keys_less(
            listing[first[a] as int].dir(),
            listing[first[b] as int].dir(),
        ));
    }
    assert forall|a: int| 0 <= a < once.len() implies (#[trigger] once[a]).parented() by {
        assert(stands_for_directory(listing, listing.len() as int, first[a] as int));
    }
    lemma_all_picked(once, second, 0);
    assert(twice =~= once);
}

/// Where the paths lie in directories of their own, in order, picks hold all of them in
/// order, from any place on.
proof fn lemma_all_picked(once: Seq<PathView>, picks: Seq<usize>, k: int)
    requires
        picks_by_directory(once, once.len() as int, picks),
        forall|a: int, b: int|
            0 <= a < b < once.len() ==> paths::keys_less(
                (#[trigger] once[a]).dir(),
                (#[trigger] once[b]).dir(),
            ),
        forall|a: int| 0 <= a < once.len() ==> (#[trigger] once[a]).parented(),
        0 <= k <= once.len(),
        k <= picks.len(),
        forall|a: int| 0 <= a < k ==> #[trigger] picks[a] == a,
    ensures
        picks.len() == once.len(),
        forall|a: int| 0 <= a < once.len() ==> #[trigger] picks[a] == a,
    decreases once.len() - k,
{
    if k < once.len() {
        assert(represented(once, picks, k));
        let at = choose|a: int|
            0 <= a < picks.len() && once[#[trigger] picks[a] as int].dir() == once[k].dir();
        lemma_own_place(once, picks, at, k);
        assert(at >= k);
        let p = picks[k] as int;
        assert(stands_for_directory(once, once.len() as int, p));
        if p != k {
            if p < k {
                assert(picks[p] == p);
                assert(paths::keys_less(
                    once[picks[p] as int].dir(),
                    once[picks[k] as int].dir(),
                ));
                paths::lemma_keys_order(once[p].dir(), once[p].dir());
            } else {
                assert(at > k);
                assert(paths::keys_less(
                    once[picks[k] as int].dir(),
                    once[picks[at] as int].dir(),
                ));
                assert(paths::keys_less(once[k].dir(), once[p].dir()));
                paths::lemma_keys_order(once[k].dir(), once[p].dir());
            }
        }
        lemma_all_picked(once, picks, k + 1);
    } else if picks.len() > once.len() {
        let p = picks[k] as int;
        assert(stands_for_directory(once, once.len() as int, p));
        assert(picks[p] == p);
        assert(paths::keys_less(once[picks[p] as int].dir(), once[picks[k] as int].dir()));
        paths::lemma_keys_order(once[p].dir(), once[p].dir());
    }
}

/// A path that lies in the directory of another one is that one.
proof fn lemma_own_place(once: Seq<PathView>, picks: Seq<usize>, at: int, k: int)
    requires
        picks_by_directory(once, once.len() as int, picks),
        forall|a: int, b: int|
            0 <= a < b < once.len() ==> paths::keys_less(
                (#[trigger] once[a]).dir(),
                (#[trigger] once[b]).dir(),
            ),
        0 <= at < picks.len(),
        0 <= k < once.len(),
        once[picks[at] as int].dir() == once[k].dir(),
    ensures
        picks[at] == k,
{
    let p = picks[at] as int;
    assert(stands_for_directory(once, once.len() as int, p));
    paths::lemma_keys_order(once[p].dir(), once[k].dir());
    if p < k {
        assert(paths::keys_less(once[p].dir(), once[k].dir()));
    } else if k < p {
        assert(paths::keys_less(once[k].dir(), once[p].dir()));
        paths::lemma_keys_order(once[k].dir(), once[p].dir());
    }
}

/// Whatever is found at a root of which all paths are well-formed is well-formed.
pub proof fn found_is_wf(
    root: PathView,
    kind: RootKind,
    entries: Seq<WalkEntry>,
    found: Seq<PathView>,
    i: int,
)
    requires
        found_at(root, kind, entries, found),
        root.wf(),
        forall|e: int| 0 <= e < entries.len() ==> (#[trigger] entries[e]).path@.wf(),
        0 <= i < found.len(),
    ensures
        found[i].wf(),
{
    if kind == RootKind::Directory {
        let e = discovered_among_entries(entries, found, i);
        assert(entries[e].path@.wf());
    }
}

/// Every simfile that is discovered is one of the files that the walk came across.
pub proof fn discovered_among_entries(entries: Seq<WalkEntry>, out: Seq<PathView>, a: int) -> (e: int)
    requires
        discovered(entries, out),
        0 <= a < out.len(),
    ensures
        0 <= e < entries.len(),
        entries[e].path@ == out[a],
        entries[e].is_file,
        out[a].simfile(),
{
    let listing = choose|listing: Seq<PathView>| #[trigger]
        in_path_order(simfiles_in(entries), listing) && picked(listing, out);
    let picks = choose|picks: Seq<usize>|
        {
            &&& #[trigger] picks_by_directory(listing, listing.len() as int, picks)
            &&& out.len() == picks.len()
            &&& forall|a: int|
                0 <= a < out.len() ==> #[trigger] out[a] == listing[picks[a] as int]
        };
    let found = simfiles_in(entries);
    let places = choose|places: Seq<usize>| #[trigger] places_in_order(found, listing, places);
    assert(stands_for_directory(listing, listing.len() as int, picks[a] as int));
    assert(out[a] == listing[picks[a] as int]);
    let k = places[picks[a] as int] as int;
    assert(listing[picks[a] as int] == found[k]);
    lemma_found_among_entries(entries, k)
}

proof fn lemma_found_among_entries(entries: Seq<WalkEntry>, k: int) -> (e: int)
    requires
        0 <= k < simfiles_in(entries).len(),
    ensures
        0 <= e < entries.len(),
        entries[e].path@ == simfiles_in(entries)[k],
        entries[e].is_file,
        simfiles_in(entries)[k].simfile(),
    decreases entries.len(),
{
    let before = simfiles_in(entries.drop_last());
    if k < before.len() {
        lemma_found_among_entries(entries.drop_last(), k)
    } else {
        entries.len() - 1
    }
}

// ---------------------------------------------------------------------------
// Baselines
// ---------------------------------------------------------------------------

/// The MD5 digest of a message.
pub uninterp spec fn md5_digest(message: Seq<u8>) -> Seq<u8>;

/// Calls `md5::compute`, which hands out the sixteen bytes of the digest.
#[verifier::external_body]
fn md5_bytes(message: &[u8]) -> (digest: [u8; 16])
    ensures
        digest@ == md5_digest(message@),
{
    md5::compute(message).0
}

pub open spec fn hex_char(n: int) -> char {
    if n < 10 {
        ('0' as u32 + n) as char
    } else {
        ('a' as u32 + n - 10) as char
    }
}

/// Bytes in hexadecimal, two small digits for each.
pub open spec fn hex(bytes: Seq<u8>) -> Seq<char>
    decreases bytes.len(),
{
    if bytes.len() == 0 {
        Seq::empty()
    } else {
        hex(bytes.drop_last()).push(hex_char(bytes.last() as int / 16)).push(
            hex_char(bytes.last() as int % 16),
        )
    }
}

fn hex_digit(n: u8) -> (c: char)
    requires
        n < 16,
    ensures
        c == hex_char(n as int),
{
    if n < 10 {
        (48 + n) as char
    } else {
        (87 + n) as char
    }
}

/// A digest in hexadecimal.
pub fn hex_text(digest: &[u8; 16]) -> (out: String)
    ensures
        out@ == hex(digest@),
{
    let mut chars: Vec<char> = Vec::new();
    let mut i: usize = 0;
    assert(digest@.take(0) =~= Seq::<u8>::empty());
    while i < 16
        invariant
            i <= 16,
            chars@ == hex(digest@.take(i as int)),
        decreases 16 - i,
    {
        let b: u8 = digest[i];
        assert(digest@.take(i + 1).drop_last() =~= digest@.take(i as int));
        chars.push(hex_digit(b / 16));
        chars.push(hex_digit(b % 16));
        i += 1;
    }
    assert(digest@.take(16) =~= digest@);
    string_of(&chars)
}

pub fn md5_hex(bytes: &[u8]) -> (out: String)
    ensures
        out@ == hex(md5_digest(bytes@)),
        out@.len() == 32,
{
    let digest: [u8; 16] = md5_bytes(bytes);
    proof {
        hex_is_readable(digest@, digest@);
    }
    hex_text(&digest)
}

pub open spec fn is_hex(c: char) -> bool {
    '0' <= c <= '9' || 'a' <= c <= 'f'
}

/// Hexadecimal text has two small digits for each byte, and tells any two
/// sequences of bytes apart.
pub proof fn hex_is_readable(a: Seq<u8>, b: Seq<u8>)
    ensures
        hex(a).len() == 2 * a.len(),
        forall|i: int| 0 <= i < hex(a).len() ==> is_hex(#[trigger] hex(a)[i]),
        hex(a) == hex(b) ==> a == b,
    decreases a.len(),
{
    if a.len() > 0 {
        hex_is_readable(a.drop_last(), b.drop_last());
    }
    lemma_hex_len(b);
    if hex(a) == hex(b) {
        if a.len() > 0 {
            let n = hex(a).len() as int;
            let x = hex(a.drop_last());
            let y = hex(b.drop_last());
            assert(hex(a)[n - 1] == hex(b)[n - 1]);
            assert(hex(a)[n - 2] == hex(b)[n - 2]);
            assert(a.last() == b.last());
            assert(x =~= hex(a).take(n - 2));
            assert(y =~= hex(b).take(n - 2));
            assert(a =~= a.drop_last().push(a.last()));
            assert(b =~= b.drop_last().push(b.last()));
        } else {
            assert(a =~= b);
        }
    }
}

proof fn lemma_hex_len(a: Seq<u8>)
    ensures
        hex(a).len() == 2 * a.len(),
    decreases a.len(),
{
    if a.len() > 0 {
        lemma_hex_len(a.drop_last());
    }
}

/// The shard that a digest stands in: its first two bytes as text, and "00"
/// where those are no text.
pub open spec fn shard(md5: Seq<char>) -> Seq<char> {
    if md5.len() >= 2 && (md5[0] as u32) < 128 && (md5[1] as u32) < 128 {
        md5.take(2)
    } else if md5.len() >= 1 && 128 <= md5[0] as u32 && (md5[0] as u32) < 2048 {
        md5.take(1)
    } else {
        "00"@
    }
}

pub fn shard_of(md5: &str) -> (out: String)
    ensures
        out@ == shard(md5@),
{
    let chars: Vec<char> = chars_of(md5);
    if chars.len() >= 2 && (chars[0] as u32) < 128 && (chars[1] as u32) < 128 {
        assert(chars@.subrange(0, 2) =~= chars@.take(2));
        string_of(&part_of(&chars, 0, 2))
    } else if chars.len() >= 1 && 128 <= chars[0] as u32 && (chars[0] as u32) < 2048 {
        assert(chars@.subrange(0, 1) =~= chars@.take(1));
        string_of(&part_of(&chars, 0, 1))
    } else {
        "00".to_owned()
    }
}

/// Where the baseline of a simfile with this digest stands.
pub fn baseline_rel_for_md5(md5: &str) -> (out: String)
    ensures
        out@ == shard(md5@) + "/"@ + md5@ + ".json"@,
{
    join4(&shard_of(md5), "/", md5, ".json")
}

// ---------------------------------------------------------------------------
// What is found
// ---------------------------------------------------------------------------

/// Every file among what a walk came across that is a simfile is found, in order, and nothing
/// else is: no directory, and no other file.
pub proof fn simfiles_are_found_among_files(entries: Seq<WalkEntry>, next: WalkEntry)
    ensures
        simfiles_in(Seq::empty()) == Seq::<PathView>::empty(),
        next.is_file && next.path@.simfile() ==> simfiles_in(entries.push(next)) == simfiles_in(
            entries,
        ).push(next.path@),
        !(next.is_file && next.path@.simfile()) ==> simfiles_in(entries.push(next)) == simfiles_in(
            entries,
        ),
{
    assert(entries.push(next).drop_last() =~= entries);
}

/// What is discovered is sorted by directory, has one simfile for each directory that holds
/// any, and leaves none out.
pub proof fn every_directory_is_discovered(
    entries: Seq<WalkEntry>,
    out: Seq<PathView>,
    e: int,
    a: int,
    b: int,
) -> (found: int)
    requires
        discovered(entries, out),
        0 <= e < entries.len() <= usize::MAX,
        entries[e].is_file,
        entries[e].path@.simfile(),
        entries[e].path@.parented(),
        0 <= a < b < out.len(),
    ensures
        0 <= found < out.len(),
        out[found].dir() == entries[e].path@.dir(),
        paths::keys_less(out[a].dir(), out[b].dir()),
{
    let listing = choose|listing: Seq<PathView>| #[trigger]
        in_path_order(simfiles_in(entries), listing) && picked(listing, out);
    let places = choose|places: Seq<usize>| #[trigger]
        places_in_order(simfiles_in(entries), listing, places);
    let picks = choose|picks: Seq<usize>|
        {
            &&& #[trigger] picks_by_directory(listing, listing.len() as int, picks)
            &&& out.len() == picks.len()
            &&& forall|k: int|
                0 <= k < out.len() ==> #[trigger] out[k] == listing[picks[k] as int]
        };
    let at = lemma_simfile_at(entries, e);
    let found_all = simfiles_in(entries);
    lemma_simfile_count(entries);
    assert(exists|k: int| 0 <= k < listing.len() && listing[k] == found_all[at]) by {
        lemma_arranged_everywhere(found_all, listing, places, at);
    }
    let k = choose|k: int| 0 <= k < listing.len() && listing[k] == found_all[at];
    assert(represented(listing, picks, k));
    let p = choose|p: int|
        0 <= p < picks.len() && listing[#[trigger] picks[p] as int].dir() == listing[k].dir();
    assert(out[p] == listing[picks[p] as int]);
    assert(out[a] == listing[picks[a] as int] && out[b] == listing[picks[b] as int]);
    p
}

proof fn lemma_simfile_count(entries: Seq<WalkEntry>)
    ensures
        simfiles_in(entries).len() <= entries.len(),
    decreases entries.len(),
{
    if entries.len() > 0 {
        lemma_simfile_count(entries.drop_last());
    }
}

proof fn lemma_simfile_at(entries: Seq<WalkEntry>, e: int) -> (at: int)
    requires
        0 <= e < entries.len(),
        entries[e].is_file,
        entries[e].path@.simfile(),
    ensures
        0 <= at < simfiles_in(entries).len(),
        simfiles_in(entries)[at] == entries[e].path@,
    decreases entries.len(),
{
    if e == entries.len() - 1 {
        simfiles_in(entries.drop_last()).len() as int
    } else {
        assert(entries.drop_last()[e] == entries[e]);
        let at = lemma_simfile_at(entries.drop_last(), e);
        at
    }
}

proof fn lemma_arranged_everywhere(
    found: Seq<PathView>,
    listing: Seq<PathView>,
    places: Seq<usize>,
    at: int,
)
    requires
        places_in_order(found, listing, places),
        0 <= at < found.len() <= usize::MAX,
    ensures
        exists|k: int| 0 <= k < listing.len() && listing[k] == found[at],
{
    assert(sorting::arranges(places, 0, found.len() as int));
    assert(places.contains(at as usize));
    let k = choose|k: int| 0 <= k < places.len() && places[k] == at as usize;
    assert(listing[k] == found[places[k] as int]);
}

/// A byte is written as the digits of its two halves, the higher first, from '0' to '9' and
/// 'a' to 'f'.
pub proof fn bytes_are_written_in_sixteens(bytes: Seq<u8>, next: u8)
    ensures
        hex(bytes.push(next)) == hex(bytes).push(hex_char(next as int / 16)).push(
            hex_char(next as int % 16),
        ),
        hex(Seq::empty()) == Seq::<char>::empty(),
        forall|n: int| 0 <= n < 10 ==> #[trigger] hex_char(n) as int == 48 + n,
        forall|n: int| 10 <= n < 16 ==> #[trigger] hex_char(n) as int == 97 + n - 10,
{
    assert(bytes.push(next).drop_last() =~= bytes);
}

/// The shard of a digest is its first two digits.
pub proof fn shards_are_first_digits(bytes: Seq<u8>)
    requires
        bytes.len() > 0,
    ensures
        shard(hex(bytes)) == hex(bytes).take(2),
        shard(hex(bytes)) == hex(bytes.take(1)),
        shard(Seq::empty()) == "00"@,
{
    hex_is_readable(bytes, bytes);
    let text = hex(bytes);
    assert(is_hex(text[0]) && is_hex(text[1]));
    lemma_hex_front(bytes);
}

proof fn lemma_hex_front(bytes: Seq<u8>)
    requires
        bytes.len() > 0,
    ensures
        hex(bytes).len() >= 2,
        hex(bytes).take(2) == hex(bytes.take(1)),
    decreases bytes.len(),
{
    hex_is_readable(bytes, bytes);
    if bytes.len() == 1 {
        assert(bytes.take(1) =~= bytes);
        assert(hex(bytes).take(2) =~= hex(bytes));
    } else {
        let front = bytes.drop_last();
        lemma_hex_front(front);
        assert(front.take(1) =~= bytes.take(1));
        assert(hex(bytes).take(2) =~= hex(front).take(2));
    }
}

/// A root is refused just where it is a file that is no simfile, or where there is nothing.
pub proof fn roots_are_refused_for_what_they_are(root: PathView, kind: RootKind)
    ensures
        root_fault(root, kind) is None <==> kind is Directory || (kind is File && root.simfile()),
        root_fault(root, kind) matches Some(why) ==> text::ends_with(why, root.text),
{
    text::parts_are_found_where_they_stand(
        "not a simfile: "@,
        root.text,
        Seq::empty(),
        Seq::empty(),
    );
    text::parts_are_found_where_they_stand(
        "root path does not exist: "@,
        root.text,
        Seq::empty(),
        Seq::empty(),
    );
}

/// The shard of any text is what its first two bytes hold: two characters of one byte each, or
/// one of two bytes; where they hold part of a character, or there are fewer, it is "00".
pub proof fn shards_hold_two_bytes(text: Seq<char>)
    ensures
        text.len() >= 2 && text[0] as u32 <= 0x7f && text[1] as u32 <= 0x7f ==> shard(text)
            == text.take(2),
        text.len() >= 1 && 0x80 <= text[0] as u32 <= 0x7ff ==> shard(text) == text.take(1),
        text.len() >= 1 && 0x7ff < text[0] as u32 ==> shard(text) == "00"@,
        text.len() >= 2 && text[0] as u32 <= 0x7f && 0x7f < text[1] as u32 ==> shard(text)
            == "00"@,
        text.len() == 1 && text[0] as u32 <= 0x7f ==> shard(text) == "00"@,
{
}

} // verus!
