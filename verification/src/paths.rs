//! Paths, as far as the library looks at them.

use crate::sorting::Ranked;
use crate::text;
use crate::text::{copy_of, copy_of_option, same_ignoring_case, to_lower};
use vstd::prelude::*;

verus! {

/// The kinds of parts that a path is made of, in the order in which they sort.
#[derive(Debug, Clone, Copy, PartialEq, Eq, Structural)]
pub enum PartKind {
    Prefix,
    Root,
    Current,
    Parent,
    Name,
}

/// One part of a path. Only a prefix and a name have bytes.
#[derive(Debug, Clone)]
pub struct PathPart {
    pub kind: PartKind,
    pub bytes: Vec<u8>,
}

/// A path: how it is shown; what stands behind the dot of its last name, if it
/// is text; its parts; and how what is left of it is shown once its first parts
/// are taken away, for each number of parts.
#[derive(Debug, Clone)]
pub struct SimPath {
    pub text: String,
    pub ext: Option<String>,
    pub parts: Vec<PathPart>,
    pub tails: Vec<String>,
}

// ---------------------------------------------------------------------------
// Order
// ---------------------------------------------------------------------------

pub open spec fn kind_rank(kind: PartKind) -> u8 {
    match kind {
        PartKind::Prefix => 0,
        PartKind::Root => 1,
        PartKind::Current => 2,
        PartKind::Parent => 3,
        PartKind::Name => 4,
    }
}

/// What a part is sorted by: its kind, then its bytes.
pub open spec fn part_key(part: PathPart) -> Seq<u8> {
    seq![kind_rank(part.kind)] + part.bytes@
}

/// What a path is sorted by: the parts, one after another.
pub open spec fn path_key(parts: Seq<PathPart>) -> Seq<Seq<u8>> {
    parts.map_values(|part: PathPart| part_key(part))
}

/// Whether `a` sorts before `b`, by the first byte in which they differ; the
/// shorter of two that do not differ comes first.
pub open spec fn bytes_less(a: Seq<u8>, b: Seq<u8>) -> bool
    decreases a.len(),
{
    if b.len() == 0 {
        false
    } else if a.len() == 0 {
        true
    } else if a[0] != b[0] {
        a[0] < b[0]
    } else {
        bytes_less(a.skip(1), b.skip(1))
    }
}

/// Whether `a` sorts before `b`, by the first part in which they differ.
pub open spec fn keys_less(a: Seq<Seq<u8>>, b: Seq<Seq<u8>>) -> bool
    decreases a.len(),
{
    if b.len() == 0 {
        false
    } else if a.len() == 0 {
        true
    } else if a[0] != b[0] {
        bytes_less(a[0], b[0])
    } else {
        keys_less(a.skip(1), b.skip(1))
    }
}

proof fn lemma_bytes_order(a: Seq<u8>, b: Seq<u8>)
    ensures
        a == b ==> !bytes_less(a, b),
        a != b ==> bytes_less(a, b) != bytes_less(b, a),
    decreases a.len(),
{
    if a.len() > 0 && b.len() > 0 && a[0] == b[0] {
        lemma_bytes_order(a.skip(1), b.skip(1));
        if a.skip(1) == b.skip(1) {
            assert(a =~= seq![a[0]] + a.skip(1));
            assert(b =~= seq![b[0]] + b.skip(1));
        }
    } else if a.len() == 0 && b.len() == 0 {
        assert(a =~= b);
    }
}

proof fn lemma_bytes_transitive(a: Seq<u8>, b: Seq<u8>, c: Seq<u8>)
    requires
        bytes_less(a, b),
        bytes_less(b, c),
    ensures
        bytes_less(a, c),
    decreases a.len(),
{
    if a.len() > 0 && a[0] == b[0] && b[0] == c[0] {
        lemma_bytes_transitive(a.skip(1), b.skip(1), c.skip(1));
    }
}

/// Of two different paths one comes first, and nothing comes before itself.
pub proof fn lemma_keys_order(a: Seq<Seq<u8>>, b: Seq<Seq<u8>>)
    ensures
        a == b ==> !keys_less(a, b),
        a != b ==> keys_less(a, b) != keys_less(b, a),
    decreases a.len(),
{
    if a.len() > 0 && b.len() > 0 {
        lemma_bytes_order(a[0], b[0]);
        if a[0] == b[0] {
            lemma_keys_order(a.skip(1), b.skip(1));
            if a.skip(1) == b.skip(1) {
                assert(a =~= seq![a[0]] + a.skip(1));
                assert(b =~= seq![b[0]] + b.skip(1));
            }
        }
    } else if a.len() == 0 && b.len() == 0 {
        assert(a =~= b);
    }
}

/// What comes before something that comes before a path comes before it.
pub proof fn lemma_keys_transitive(a: Seq<Seq<u8>>, b: Seq<Seq<u8>>, c: Seq<Seq<u8>>)
    requires
        keys_less(a, b),
        keys_less(b, c),
    ensures
        keys_less(a, c),
    decreases a.len(),
{
    if a.len() > 0 {
        lemma_bytes_order(a[0], b[0]);
        lemma_bytes_order(b[0], c[0]);
        lemma_bytes_order(a[0], c[0]);
        if a[0] == b[0] && b[0] == c[0] {
            lemma_keys_transitive(a.skip(1), b.skip(1), c.skip(1));
        } else if a[0] != b[0] && b[0] != c[0] {
            lemma_bytes_transitive(a[0], b[0], c[0]);
        }
    }
}

/// The order of paths is a strict total order: of two different paths one comes
/// first, and nothing comes before itself.
pub proof fn paths_are_ordered(a: Seq<PathPart>, b: Seq<PathPart>, c: Seq<PathPart>)
    ensures
        !keys_less(path_key(a), path_key(a)),
        path_key(a) != path_key(b) ==> keys_less(path_key(a), path_key(b)) != keys_less(
            path_key(b),
            path_key(a),
        ),
        keys_less(path_key(a), path_key(b)) && keys_less(path_key(b), path_key(c)) ==> keys_less(
            path_key(a),
            path_key(c),
        ),
{
    lemma_keys_order(path_key(a), path_key(a));
    lemma_keys_order(path_key(a), path_key(b));
    if keys_less(path_key(a), path_key(b)) && keys_less(path_key(b), path_key(c)) {
        lemma_keys_transitive(path_key(a), path_key(b), path_key(c));
    }
}

fn kind_number(kind: PartKind) -> (n: u8)
    ensures
        n == kind_rank(kind),
{
    match kind {
        PartKind::Prefix => 0,
        PartKind::Root => 1,
        PartKind::Current => 2,
        PartKind::Parent => 3,
        PartKind::Name => 4,
    }
}

/// Where two things stand to each other.
#[derive(Debug, Clone, Copy, PartialEq, Eq, Structural)]
pub enum Side {
    Before,
    Same,
    After,
}

/// Where two parts stand to each other.
fn part_side(a: &PathPart, b: &PathPart) -> (side: Side)
    ensures
        side == (if part_key(*a) == part_key(*b) {
            Side::Same
        } else if bytes_less(part_key(*a), part_key(*b)) {
            Side::Before
        } else {
            Side::After
        }),
{
    let ghost ka = part_key(*a);
    let ghost kb = part_key(*b);
    let ra: u8 = kind_number(a.kind);
    let rb: u8 = kind_number(b.kind);
    if ra != rb {
        assert(ka[0] != kb[0]);
        return if ra < rb {
            Side::Before
        } else {
            Side::After
        };
    }
    proof {
        assert(ka.skip(1) =~= a.bytes@);
        assert(kb.skip(1) =~= b.bytes@);
    }
    let mut i: usize = 0;
    assert(a.bytes@.skip(0) =~= a.bytes@);
    assert(b.bytes@.skip(0) =~= b.bytes@);
    while i < a.bytes.len() && i < b.bytes.len()
        invariant
            i <= a.bytes.len(),
            i <= b.bytes.len(),
            forall|k: int| 0 <= k < i ==> a.bytes@[k] == b.bytes@[k],
            ka == part_key(*a),
            kb == part_key(*b),
            ka[0] == kb[0],
            bytes_less(ka, kb) == bytes_less(a.bytes@.skip(i as int), b.bytes@.skip(i as int)),
        decreases a.bytes.len() - i,
    {
        if a.bytes[i] != b.bytes[i] {
            assert(ka[i + 1] != kb[i + 1]);
            return if a.bytes[i] < b.bytes[i] {
                Side::Before
            } else {
                Side::After
            };
        }
        assert(a.bytes@.skip(i as int).skip(1) =~= a.bytes@.skip(i + 1));
        assert(b.bytes@.skip(i as int).skip(1) =~= b.bytes@.skip(i + 1));
        i += 1;
    }
    if a.bytes.len() == b.bytes.len() {
        assert(ka =~= kb);
        Side::Same
    } else {
        assert(ka.len() != kb.len());
        if a.bytes.len() < b.bytes.len() {
            Side::Before
        } else {
            Side::After
        }
    }
}

/// Where the first `n` parts of one path and the first `m` parts of another
/// stand to each other.
pub fn parts_side(a: &Vec<PathPart>, n: usize, b: &Vec<PathPart>, m: usize) -> (side: Side)
    requires
        n <= a.len(),
        m <= b.len(),
    ensures
        side == (if path_key(a@.take(n as int)) == path_key(b@.take(m as int)) {
            Side::Same
        } else if keys_less(path_key(a@.take(n as int)), path_key(b@.take(m as int))) {
            Side::Before
        } else {
            Side::After
        }),
{
    let ghost ka = path_key(a@.take(n as int));
    let ghost kb = path_key(b@.take(m as int));
    assert(ka.skip(0) =~= ka);
    assert(kb.skip(0) =~= kb);
    let mut i: usize = 0;
    while i < n && i < m
        invariant
            i <= n <= a.len(),
            i <= m <= b.len(),
            ka == path_key(a@.take(n as int)),
            kb == path_key(b@.take(m as int)),
            forall|k: int| 0 <= k < i ==> ka[k] == kb[k],
            keys_less(ka, kb) == keys_less(ka.skip(i as int), kb.skip(i as int)),
        decreases n - i,
    {
        assert(ka[i as int] == part_key(a@[i as int]));
        assert(kb[i as int] == part_key(b@[i as int]));
        let side: Side = part_side(&a[i], &b[i]);
        match side {
            Side::Same => {},
            _ => {
                assert(ka[i as int] != kb[i as int]);
                return side;
            },
        }
        assert(ka.skip(i as int).skip(1) =~= ka.skip(i + 1));
        assert(kb.skip(i as int).skip(1) =~= kb.skip(i + 1));
        i += 1;
    }
    if n == m {
        assert(ka =~= kb);
        Side::Same
    } else {
        assert(ka.len() != kb.len());
        if n < m {
            Side::Before
        } else {
            Side::After
        }
    }
}

// ---------------------------------------------------------------------------
// What is asked of a path
// ---------------------------------------------------------------------------

/// What a path says: how it is shown, its extension, the keys of its parts, and
/// how its tails are shown.
#[verifier::ext_equal]
pub ghost struct PathView {
    pub text: Seq<char>,
    pub ext: Option<Seq<char>>,
    pub parts: Seq<Seq<u8>>,
    pub tails: Seq<Seq<char>>,
}

impl PathView {
    /// The tails are those of the parts.
    pub open spec fn wf(self) -> bool {
        self.tails.len() == self.parts.len() + 1
    }

    /// Whether there is a directory above: the last part is neither a root nor a
    /// prefix.
    pub open spec fn parented(self) -> bool {
        self.parts.len() > 0 && self.parts.last()[0] >= 2
    }

    /// The directory above.
    pub open spec fn dir(self) -> Seq<Seq<u8>> {
        self.parts.drop_last()
    }

    /// Whether what stands behind the dot is `ext`, in either case of letters.
    pub open spec fn with_ext(self, ext: Seq<char>) -> bool {
        self.ext matches Some(own) && text::lower(own) == text::lower(ext)
    }

    pub open spec fn simfile(self) -> bool {
        self.with_ext("sm"@) || self.with_ext("ssc"@)
    }

    /// What stands behind the dot, in small letters, or nothing.
    pub open spec fn extension(self) -> Seq<char> {
        match self.ext {
            Some(own) => text::lower(own),
            None => Seq::empty(),
        }
    }

    /// How a path is shown below `root`: what is left of it where the parts of
    /// `root` stand at its front, and else the whole.
    pub open spec fn below(self, root: PathView) -> Seq<char> {
        let n = root.parts.len() as int;
        if n <= self.parts.len() && self.parts.take(n) == root.parts {
            self.tails[n]
        } else {
            self.text
        }
    }
}

impl SimPath {
    pub open spec fn view(&self) -> PathView {
        PathView {
            text: self.text@,
            ext: text::option_view(self.ext),
            parts: path_key(self.parts@),
            tails: text::texts_view(self.tails@),
        }
    }

    pub fn has_parent(&self) -> (yes: bool)
        ensures
            yes == self@.parented(),
    {
        let n: usize = self.parts.len();
        n > 0 && kind_number(self.parts[n - 1].kind) >= 2
    }
}

fn copy_bytes(bytes: &Vec<u8>) -> (out: Vec<u8>)
    ensures
        out@ == bytes@,
{
    let mut out: Vec<u8> = Vec::new();
    let mut i: usize = 0;
    while i < bytes.len()
        invariant
            i <= bytes.len(),
            out@ == bytes@.take(i as int),
        decreases bytes.len() - i,
    {
        out.push(bytes[i]);
        assert(bytes@.take(i + 1) =~= bytes@.take(i as int).push(bytes@[i as int]));
        i += 1;
    }
    assert(bytes@.take(i as int) =~= bytes@);
    out
}

/// A copy of a path.
pub fn copy_path(path: &SimPath) -> (out: SimPath)
    ensures
        out@ == path@,
{
    let mut parts: Vec<PathPart> = Vec::new();
    let mut i: usize = 0;
    while i < path.parts.len()
        invariant
            i <= path.parts.len(),
            parts.len() == i,
            forall|k: int| 0 <= k < i ==> part_key(#[trigger] parts@[k]) == part_key(path.parts@[k]),
        decreases path.parts.len() - i,
    {
        let part: &PathPart = &path.parts[i];
        parts.push(PathPart { kind: part.kind, bytes: copy_bytes(&part.bytes) });
        i += 1;
    }
    let mut tails: Vec<String> = Vec::new();
    let mut j: usize = 0;
    while j < path.tails.len()
        invariant
            j <= path.tails.len(),
            tails.len() == j,
            forall|k: int| 0 <= k < j ==> (#[trigger] tails@[k])@ == path.tails@[k]@,
        decreases path.tails.len() - j,
    {
        tails.push(copy_of(&path.tails[j]));
        j += 1;
    }
    assert(path_key(parts@) =~= path_key(path.parts@));
    assert(text::texts_view(tails@) =~= text::texts_view(path.tails@));
    SimPath { text: copy_of(&path.text), ext: copy_of_option(&path.ext), parts, tails }
}

/// Whether two paths have the same parts.
pub fn same_path(a: &SimPath, b: &SimPath) -> (same: bool)
    ensures
        same == (a@.parts == b@.parts),
{
    assert(a.parts@.take(a.parts.len() as int) =~= a.parts@);
    assert(b.parts@.take(b.parts.len() as int) =~= b.parts@);
    match parts_side(&a.parts, a.parts.len(), &b.parts, b.parts.len()) {
        Side::Same => true,
        _ => false,
    }
}

pub fn has_ext(path: &SimPath, ext: &str) -> (yes: bool)
    ensures
        yes == path@.with_ext(ext@),
{
    match &path.ext {
        Some(own) => same_ignoring_case(own, ext),
        None => false,
    }
}

pub fn is_simfile_path(path: &SimPath) -> (yes: bool)
    ensures
        yes == path@.simfile(),
{
    has_ext(path, "sm") || has_ext(path, "ssc")
}

pub fn is_ogg_path(path: &SimPath) -> (yes: bool)
    ensures
        yes == path@.with_ext("ogg"@),
{
    has_ext(path, "ogg")
}

pub fn simfile_ext(path: &SimPath) -> (out: String)
    ensures
        out@ == path@.extension(),
{
    match &path.ext {
        Some(own) => to_lower(own),
        None => String::new(),
    }
}

pub fn rel_path(root: &SimPath, path: &SimPath) -> (out: String)
    requires
        path@.wf(),
    ensures
        out@ == path@.below(root@),
{
    let n: usize = root.parts.len();
    assert(root.parts@.take(n as int) =~= root.parts@);
    if n <= path.parts.len() {
        assert(path_key(path.parts@.take(n as int)) =~= path@.parts.take(n as int));
        match parts_side(&path.parts, n, &root.parts, n) {
            Side::Same => {
                return copy_of(&path.tails[n]);
            },
            _ => {},
        }
    }
    copy_of(&path.text)
}

/// A path below a root is shown as what is left of it behind the root, and a
/// path that does not lie below it as it is.
pub proof fn relative_paths(root: PathView, path: PathView)
    requires
        path.wf(),
    ensures
        path.below(path) == path.tails.last(),
        root.parts.len() > path.parts.len() ==> path.below(root) == path.text,
        root.parts.len() <= path.parts.len() && path.parts.take(root.parts.len() as int)
            == root.parts ==> path.below(root) == path.tails[root.parts.len() as int],
{
    assert(path.parts.take(path.parts.len() as int) =~= path.parts);
}

// ---------------------------------------------------------------------------
// Sorting
// ---------------------------------------------------------------------------

/// Paths, in the order of their parts.
pub struct ByPath {
    pub paths: Vec<SimPath>,
}

impl Ranked for ByPath {
    open spec fn size(&self) -> nat {
        self.paths@.len()
    }

    open spec fn may_precede(&self, i: int, j: int) -> bool {
        !keys_less(self.paths@[j]@.parts, self.paths@[i]@.parts)
    }

    proof fn order_is_total(&self, i: int, j: int) {
        lemma_keys_order(self.paths@[i]@.parts, self.paths@[j]@.parts);
    }

    proof fn order_is_transitive(&self, i: int, j: int, k: int) {
        let a = self.paths@[i]@.parts;
        let b = self.paths@[j]@.parts;
        let c = self.paths@[k]@.parts;
        lemma_keys_order(a, b);
        lemma_keys_order(b, c);
        lemma_keys_order(a, c);
        if keys_less(c, a) {
            if keys_less(a, b) {
                lemma_keys_transitive(c, a, b);
                lemma_keys_order(c, b);
            } else {
                assert(a == b);
            }
        }
    }

    fn count(&self) -> (n: usize) {
        self.paths.len()
    }

    fn goes_first(&self, i: usize, j: usize) -> (yes: bool) {
        let a: &SimPath = &self.paths[i];
        let b: &SimPath = &self.paths[j];
        assert(a.parts@.take(a.parts.len() as int) =~= a.parts@);
        assert(b.parts@.take(b.parts.len() as int) =~= b.parts@);
        let side: Side = parts_side(&b.parts, b.parts.len(), &a.parts, a.parts.len());
        match side {
            Side::Before => {
                proof {
                    lemma_keys_order(b@.parts, a@.parts);
                }
                false
            },
            Side::Same => {
                proof {
                    lemma_keys_order(b@.parts, a@.parts);
                }
                true
            },
            Side::After => true,
        }
    }
}

// ---------------------------------------------------------------------------
// What paths go by
// ---------------------------------------------------------------------------

/// Paths are sorted by the first part in which they differ, and parts by the first byte: what
/// stands before it and behind it does not matter. What is the front of another comes first.
pub proof fn the_first_difference_decides(
    same: Seq<Seq<u8>>,
    a: Seq<u8>,
    b: Seq<u8>,
    more_a: Seq<Seq<u8>>,
    more_b: Seq<Seq<u8>>,
)
    ensures
        a != b ==> keys_less((same.push(a)) + more_a, (same.push(b)) + more_b) == bytes_less(a, b),
        keys_less(same, (same.push(b)) + more_b),
        !keys_less((same.push(b)) + more_b, same),
    decreases same.len(),
{
    let x = same.push(a) + more_a;
    let y = same.push(b) + more_b;
    if same.len() > 0 {
        let rest = same.skip(1);
        the_first_difference_decides(rest, a, b, more_a, more_b);
        assert(x.skip(1) =~= rest.push(a) + more_a);
        assert(y.skip(1) =~= rest.push(b) + more_b);
        assert(x[0] == same[0] && y[0] == same[0]);
    } else {
        assert(x[0] == a && y[0] == b);
    }
}

/// The same of bytes.
pub proof fn the_first_byte_decides(
    same: Seq<u8>,
    a: u8,
    b: u8,
    more_a: Seq<u8>,
    more_b: Seq<u8>,
)
    ensures
        a != b ==> bytes_less((same.push(a)) + more_a, (same.push(b)) + more_b) == (a < b),
        bytes_less(same, (same.push(b)) + more_b),
        !bytes_less((same.push(b)) + more_b, same),
        !bytes_less(same, same),
    decreases same.len(),
{
    let x = same.push(a) + more_a;
    let y = same.push(b) + more_b;
    if same.len() > 0 {
        let rest = same.skip(1);
        the_first_byte_decides(rest, a, b, more_a, more_b);
        assert(x.skip(1) =~= rest.push(a) + more_a);
        assert(y.skip(1) =~= rest.push(b) + more_b);
        assert(x[0] == same[0] && y[0] == same[0]);
    } else {
        assert(x[0] == a && y[0] == b);
    }
}

/// Parts of a path are sorted by their kind before anything else: prefixes, the root, the
/// current and the parent directory, and names, in this order.
pub proof fn kinds_come_in_their_order(a: PathPart, b: PathPart)
    ensures
        kind_rank(PartKind::Prefix) < kind_rank(PartKind::Root) < kind_rank(PartKind::Current)
            < kind_rank(PartKind::Parent) < kind_rank(PartKind::Name),
        a.kind != b.kind ==> bytes_less(part_key(a), part_key(b)) == (kind_rank(a.kind)
            < kind_rank(b.kind)),
        a.kind == b.kind ==> bytes_less(part_key(a), part_key(b)) == bytes_less(
            a.bytes@,
            b.bytes@,
        ),
{
    assert(part_key(a)[0] == kind_rank(a.kind) && part_key(b)[0] == kind_rank(b.kind));
    assert(part_key(a).skip(1) =~= a.bytes@);
    assert(part_key(b).skip(1) =~= b.bytes@);
}

/// What a file is goes by what stands behind its dot, in either case of letters: simfiles are
/// those with "sm" or "ssc" there, and a file without a dot is none.
pub proof fn files_go_by_their_extensions(path: PathView, own: Seq<char>)
    ensures
        path.ext == Some(own) ==> path.extension() == text::lower(own),
        path.ext is None ==> path.extension().len() == 0 && !path.simfile(),
        path.ext == Some(own) ==> (path.simfile() <==> text::lower(own) == "sm"@ || text::lower(own)
            == "ssc"@),
        path.ext == Some(own) ==> (path.with_ext("ogg"@) <==> text::lower(own) == "ogg"@),
        path.ext == Some(own) ==> (path.with_ext("zst"@) <==> text::lower(own) == "zst"@),
{
    reveal_strlit("sm");
    reveal_strlit("ssc");
    reveal_strlit("ogg");
    reveal_strlit("zst");
    assert(text::lower("sm"@) =~= "sm"@);
    assert(text::lower("ssc"@) =~= "ssc"@);
    assert(text::lower("ogg"@) =~= "ogg"@);
    assert(text::lower("zst"@) =~= "zst"@);
}

/// A path has a directory above it just where its last part is a name or points to a
/// directory; that directory is the path without its last part.
pub proof fn directories_stand_above(parts: Seq<PathPart>, last: PathPart, path: PathView)
    requires
        path.parts == path_key(parts.push(last)),
    ensures
        path.parented() <==> last.kind != PartKind::Prefix && last.kind != PartKind::Root,
        path.dir() == path_key(parts),
{
    assert(path.parts.last() == part_key(last));
    assert(part_key(last)[0] == kind_rank(last.kind));
    assert(path.dir() =~= path_key(parts));
}

} // verus!
