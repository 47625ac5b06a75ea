//! Paths as the library sees them: text in which `/` parts the components.
//! A path is absolute where it starts with `/`.

use vstd::prelude::*;
use vstd::string::StringExecFns;

verus! {

/// Whether the path starts at the root.
pub open spec fn is_absolute(path: Seq<char>) -> bool {
    path.len() > 0 && path[0] == '/'
}

/// `path` as seen from `base`: `path` itself where it is absolute or `base`
/// is empty, else `base`, one `/` between them, and `path`.
pub open spec fn joined(base: Seq<char>, path: Seq<char>) -> Seq<char> {
    if is_absolute(path) || base.len() == 0 {
        path
    } else if base.last() == '/' {
        base + path
    } else {
        base + seq!['/'] + path
    }
}

/// The component that the end of `s` is in: what follows the last `/`.
pub open spec fn open_component(s: Seq<char>) -> Seq<char>
    decreases s.len(),
{
    if s.len() == 0 || s.last() == '/' {
        Seq::empty()
    } else {
        open_component(s.drop_last()).push(s.last())
    }
}

/// Whether a stretch between two `/` counts as a component: an empty one and
/// `.` do not.
pub open spec fn is_component(part: Seq<char>) -> bool {
    part.len() > 0 && part != seq!['.']
}

/// The components of `s` that a `/` ends.
pub open spec fn closed_components(s: Seq<char>) -> Seq<Seq<char>>
    decreases s.len(),
{
    if s.len() == 0 {
        Seq::empty()
    } else if s.last() == '/' && is_component(open_component(s.drop_last())) {
        closed_components(s.drop_last()).push(open_component(s.drop_last()))
    } else {
        closed_components(s.drop_last())
    }
}

/// The components of a path, first to last: the stretches between `/`,
/// without the empty ones and without `.`.
pub open spec fn components(path: Seq<char>) -> Seq<Seq<char>> {
    if is_component(open_component(path)) {
        closed_components(path).push(open_component(path))
    } else {
        closed_components(path)
    }
}

/// How many components `a` and `b` share from position `i` on, added to `i`.
pub open spec fn common_until(a: Seq<Seq<char>>, b: Seq<Seq<char>>, i: int) -> int
    decreases a.len() - i,
{
    if 0 <= i < a.len() && i < b.len() && a[i] == b[i] {
        common_until(a, b, i + 1)
    } else {
        i
    }
}

/// The number of leading components that `a` and `b` share.
pub open spec fn common_prefix(a: Seq<Seq<char>>, b: Seq<Seq<char>>) -> int {
    common_until(a, b, 0)
}

/// The parent directory, as a component.
pub open spec fn parent() -> Seq<char> {
    seq!['.', '.']
}

/// The way from `base` to `target` in components: up once for every
/// component of `base` behind the shared prefix, then down `target`.
pub open spec fn relative_components(base: Seq<Seq<char>>, target: Seq<Seq<char>>) -> Seq<
    Seq<char>,
> {
    let shared = common_prefix(base, target);
    Seq::new((base.len() - shared) as nat, |i: int| parent()) + target.skip(shared)
}

/// Whether components climb above where they start: whether, going from
/// the first to the last with `depth` names to stand on, a `..` comes when
/// there is no name left to leave.
pub open spec fn climbs(parts: Seq<Seq<char>>, depth: int) -> bool
    decreases parts.len(),
{
    if parts.len() == 0 {
        false
    } else if parts[0] == parent() {
        depth <= 0 || climbs(parts.drop_first(), depth - 1)
    } else {
        climbs(parts.drop_first(), depth + 1)
    }
}

/// Whether a path leaves the directory that it starts from: a relative
/// path whose components climb above it. An absolute path starts nowhere,
/// so it leaves nothing.
pub open spec fn leaves(path: Seq<char>) -> bool {
    !is_absolute(path) && climbs(components(path), 0)
}

/// Components written as one path, with `/` between them.
pub open spec fn written(parts: Seq<Seq<char>>) -> Seq<char>
    decreases parts.len(),
{
    if parts.len() == 0 {
        Seq::empty()
    } else if parts.len() == 1 {
        parts[0]
    } else {
        written(parts.drop_last()) + seq!['/'] + parts.last()
    }
}

/// `target` as a path relative to `base`.
pub open spec fn relativized(base: Seq<char>, target: Seq<char>) -> Seq<char> {
    written(relative_components(components(base), components(target)))
}

/// Whether the path starts at the root.
pub fn path_is_absolute(path: &str) -> (r: bool)
    ensures
        r == is_absolute(path@),
{
    !path.is_empty() && path.get_char(0) == '/'
}

/// Whether the path does not start at the root.
pub fn path_is_relative(path: &str) -> (r: bool)
    ensures
        r == !is_absolute(path@),
{
    !path_is_absolute(path)
}

/// `path` as seen from `base`.
pub fn join(base: &str, path: &str) -> (r: String)
    ensures
        r@ == joined(base@, path@),
{
    if path_is_absolute(path) || base.is_empty() {
        return path.to_owned();
    }
    let n = base.unicode_len();
    let mut r = base.to_owned();
    if base.get_char(n - 1) != '/' {
        proof {
            reveal_strlit("/");
        }
        r.append("/");
        assert("/"@ =~= seq!['/']);
    }
    r.append(path);
    r
}

/// The components of a path, first to last.
pub fn path_components(path: &str) -> (r: Vec<String>)
    ensures
        r.deep_view() == components(path@),
{
    let n = path.unicode_len();
    let mut r: Vec<String> = Vec::new();
    let mut start: usize = 0;
    let mut i: usize = 0;
    assert(path@.take(0) =~= Seq::empty());
    assert(r.deep_view() =~= Seq::empty());
    assert(path@.subrange(0, 0) =~= Seq::empty());
    while i < n
        invariant
            0 <= start <= i <= n,
            n == path@.len(),
            r.deep_view() == closed_components(path@.take(i as int)),
            open_component(path@.take(i as int)) == path@.subrange(start as int, i as int),
        decreases n - i,
    {
        let c = path.get_char(i);
        let ghost before = path@.take(i as int);
        let ghost after = path@.take(i + 1);
        assert(after.drop_last() =~= before);
        assert(after.last() == c);
        if c == '/' {
            let part = path.substring_char(start, i);
            if keeps(part) {
                let ghost shown = r.deep_view();
                r.push(part.to_owned());
                assert(r.deep_view() =~= shown.push(part@));
            }
            start = i + 1;
            assert(path@.subrange(start as int, i + 1) =~= Seq::empty());
        } else {
            assert(path@.subrange(start as int, i + 1) =~= path@.subrange(
                start as int,
                i as int,
            ).push(c));
        }
        i += 1;
    }
    assert(path@.take(n as int) =~= path@);
    let part = path.substring_char(start, n);
    if keeps(part) {
        let ghost shown = r.deep_view();
        r.push(part.to_owned());
        assert(r.deep_view() =~= shown.push(part@));
    }
    r
}

/// Whether a stretch between two `/` counts as a component.
fn keeps(part: &str) -> (r: bool)
    ensures
        r == is_component(part@),
{
    let n = part.unicode_len();
    if n == 0 {
        return false;
    }
    if n == 1 && part.get_char(0) == '.' {
        assert(part@ =~= seq!['.']);
        return false;
    }
    assert(part@ != seq!['.']) by {
        if part@ == seq!['.'] {
            assert(seq!['.'].len() == 1);
            assert(seq!['.'][0] == '.');
        }
    }
    true
}

/// Whether a path leaves the directory that it starts from.
pub fn path_leaves(path: &str) -> (r: bool)
    ensures
        r == leaves(path@),
{
    if path_is_absolute(path) {
        return false;
    }
    let parts = path_components(path);
    let ghost all = parts.deep_view();
    let mut depth: usize = 0;
    let mut i: usize = 0;
    assert(all.skip(0) =~= all);
    while i < parts.len()
        invariant
            0 <= depth <= i <= parts.len(),
            all == parts.deep_view(),
            all == components(path@),
            !is_absolute(path@),
            climbs(all, 0) == climbs(all.skip(i as int), depth as int),
        decreases parts.len() - i,
    {
        let ghost rest = all.skip(i as int);
        proof {
            reveal_strlit("..");
            assert(rest[0] == parts[i as int]@);
            assert(rest.drop_first() =~= all.skip(i + 1));
            assert(".."@ =~= parent());
        }
        if crate::text::str_equal(parts[i].as_str(), "..") {
            assert(rest[0] == parent());
            if depth == 0 {
                assert(climbs(rest, 0));
                return true;
            }
            assert(climbs(rest, depth as int) == climbs(rest.drop_first(), depth - 1));
            depth -= 1;
        } else {
            assert(rest[0] != parent());
            assert(climbs(rest, depth as int) == climbs(rest.drop_first(), depth + 1));
            depth += 1;
        }
        i += 1;
    }
    assert(all.skip(i as int).len() == 0);
    false
}

/// The path from `base` to `target`, both given from the root: `..` for
/// every component of `base` behind what the two share, then what is left
/// of `target`.
pub fn relativize_path(base: &str, target: &str) -> (r: String)
    requires
        is_absolute(base@),
        is_absolute(target@),
    ensures
        r@ == relativized(base@, target@),
{
    let from = path_components(base);
    let to = path_components(target);
    let ghost a = from.deep_view();
    let ghost b = to.deep_view();
    let mut shared: usize = 0;
    while shared < from.len() && shared < to.len()
        invariant
            0 <= shared <= from.len(),
            shared <= to.len(),
            a == from.deep_view(),
            b == to.deep_view(),
            common_prefix(a, b) == common_until(a, b, shared as int),
        ensures
            0 <= shared <= from.len(),
            shared <= to.len(),
            common_prefix(a, b) == shared,
        decreases from.len() - shared,
    {
        assert(a[shared as int] == from[shared as int]@);
        assert(b[shared as int] == to[shared as int]@);
        if from[shared] != to[shared] {
            break ;
        }
        shared += 1;
    }
    let ghost parts = relative_components(a, b);
    let ups: usize = from.len() - shared;
    let mut r = String::new();
    let mut k: usize = 0;
    proof {
        assert(parts.len() == ups + to.len() - shared);
        assert(parts.take(0) =~= Seq::empty());
    }
    while k < ups
        invariant
            0 <= k <= ups,
            ups + shared == from.len(),
            parts == relative_components(a, b),
            common_prefix(a, b) == shared,
            a == from.deep_view(),
            r@ == written(parts.take(k as int)),
        decreases ups - k,
    {
        proof {
            reveal_strlit("/");
            reveal_strlit("..");
            assert(parts.take(k + 1).drop_last() =~= parts.take(k as int));
            assert(parts.take(k + 1).last() == parent());
        }
        if k > 0 {
            r.append("/");
        }
        r.append("..");
        proof {
            assert(".."@ =~= parent());
            assert("/"@ =~= seq!['/']);
            if k == 0 {
                assert(r@ =~= parent());
            }
        }
        k += 1;
    }
    let mut j: usize = shared;
    let mut begun: bool = ups > 0;
    while j < to.len()
        invariant
            shared <= j <= to.len(),
            begun == (ups + j - shared > 0),
            ups + shared == from.len(),
            shared <= from.len(),
            parts == relative_components(a, b),
            common_prefix(a, b) == shared,
            a == from.deep_view(),
            b == to.deep_view(),
            r@ == written(parts.take(ups + j - shared)),
        decreases to.len() - j,
    {
        let ghost m = ups + j - shared;
        proof {
            reveal_strlit("/");
            assert(parts.take(m + 1).drop_last() =~= parts.take(m));
            assert(parts.take(m + 1).last() == b[j as int]);
            assert(b[j as int] == to[j as int]@);
            assert("/"@ =~= seq!['/']);
        }
        if begun {
            r.append("/");
        }
        begun = true;
        r.append(to[j].as_str());
        proof {
            if m == 0 {
                assert(r@ =~= b[j as int]);
            }
        }
        j += 1;
    }
    assert(parts.take(parts.len() as int) =~= parts);
    r
}

} // verus!
