//! Relative paths as the entries of a pack and of its archive write them: segments
//! with a slash between them.
use crate::text::{
    chars_of, has_prefix_at, join, join_chars, same_chars, split, split_chars, starts_with_at,
    string_of, views,
};
use vstd::prelude::*;

verus! {

/// What a path begins with.
#[derive(Debug, Clone, Copy, PartialEq, Eq, Structural)]
pub enum Head {
    /// The path is empty.
    Nothing,
    /// A slash: the path starts at the root of the file system.
    Root,
    /// A single dot: the directory that the path is relative to.
    Current,
    /// Two dots: the parent of the directory that the path is relative to.
    Parent,
    /// A name.
    Normal,
}

/// What `path` begins with.
pub open spec fn head_of(path: Seq<char>) -> Head {
    if path.len() == 0 {
        Head::Nothing
    } else if path[0] == '/' {
        Head::Root
    } else if split(path, '/')[0] == ".."@ {
        Head::Parent
    } else if split(path, '/')[0] == "."@ {
        Head::Current
    } else {
        Head::Normal
    }
}

/// Whether a file may be written at `path` below a root directory: the path begins
/// with a name or with the directory itself.
pub open spec fn writable(path: Seq<char>) -> bool {
    head_of(path) == Head::Current || head_of(path) == Head::Normal
}

/// What `path` begins with.
pub fn head(path: &str) -> (h: Head)
    ensures
        h == head_of(path@),
{
    let chars = chars_of(path);
    if chars.len() == 0 {
        return Head::Nothing;
    }
    if chars[0] == '/' {
        return Head::Root;
    }
    let segments = split_chars(&chars, '/');
    proof {
        crate::text::lemma_split_pieces(path@, '/');
    }
    let first = &segments[0];
    assert(first@ == split(path@, '/')[0]) by {
        assert(views(segments@)[0] == first@);
    }
    let up = chars_of("..");
    let here = chars_of(".");
    if same_chars(first, &up) {
        Head::Parent
    } else if same_chars(first, &here) {
        Head::Current
    } else {
        Head::Normal
    }
}

/// Whether a file may be written at `path` below a root directory.
pub fn is_writable(path: &str) -> (b: bool)
    ensures
        b == writable(path@),
{
    let h = head(path);
    h == Head::Current || h == Head::Normal
}

/// Whether a segment counts when a path is walked: it is neither empty nor a single
/// dot.
pub open spec fn counts(segment: Seq<char>) -> bool {
    segment.len() > 0 && segment != "."@
}

/// The segments that count among `segments[1..n]`: the path without its first segment.
pub open spec fn strip(segments: Seq<Seq<char>>, n: int) -> Seq<Seq<char>>
    decreases n,
{
    if n <= 1 {
        Seq::<Seq<char>>::empty()
    } else if counts(segments[n - 1]) {
        strip(segments, n - 1).push(segments[n - 1])
    } else {
        strip(segments, n - 1)
    }
}

/// The segments of `name` behind the first one, as far as they count.
pub open spec fn stripped(name: Seq<char>) -> Seq<Seq<char>> {
    strip(split(name, '/'), split(name, '/').len() as int)
}

/// Whether a path names a file: it has a last segment, and that is not two dots.
pub open spec fn has_basename(segments: Seq<Seq<char>>) -> bool {
    segments.len() > 0 && segments.last() != ".."@
}

/// Whether a path names a file and does not begin with two dots, which would lead
/// out of the directory that it is relative to.
pub open spec fn lands(segments: Seq<Seq<char>>) -> bool {
    has_basename(segments) && segments[0] != ".."@
}

/// The path that the segments spell.
pub open spec fn spelled(segments: Seq<Seq<char>>) -> Seq<char> {
    join(segments, '/')
}

/// The path of `name` without its first segment, and whether a file may be written
/// at that path.
pub fn strip_first_segment(name: &str) -> (r: (String, bool))
    ensures
        r.0@ == spelled(stripped(name@)),
        r.1 == lands(stripped(name@)),
{
    let chars = chars_of(name);
    let segments = split_chars(&chars, '/');
    let here = chars_of(".");
    let up = chars_of("..");
    let mut rest: Vec<Vec<char>> = Vec::new();
    let mut named = false;
    let mut climbs = false;
    let mut i: usize = 1;
    proof {
        crate::text::lemma_split_pieces(name@, '/');
    }
    while i < segments.len()
        invariant
            1 <= i <= segments.len(),
            here@ == "."@,
            up@ == ".."@,
            views(rest@) == strip(views(segments@), i as int),
            named == has_basename(views(rest@)),
            climbs == (rest.len() > 0 && views(rest@)[0] == ".."@),
        decreases segments.len() - i,
    {
        let segment = &segments[i];
        assert(views(segments@)[i as int] == segment@);
        if segment.len() > 0 && !same_chars(segment, &here) {
            named = !same_chars(segment, &up);
            if rest.len() == 0 {
                climbs = !named;
            }
            let ghost before = views(rest@);
            rest.push(copy_chars(segment));
            assert(views(rest@) == before.push(segment@));
        }
        i += 1;
    }
    let spelled = join_chars(&rest, '/');
    (string_of(&spelled, 0, spelled.len()), named && !climbs)
}

fn copy_chars(v: &Vec<char>) -> (r: Vec<char>)
    ensures
        r@ == v@,
{
    let mut r: Vec<char> = Vec::new();
    let mut i: usize = 0;
    while i < v.len()
        invariant
            i <= v.len(),
            r@ == v@.take(i as int),
        decreases v.len() - i,
    {
        r.push(v[i]);
        assert(v@.take(i + 1) == v@.take(i as int).push(v@[i as int]));
        i += 1;
    }
    assert(v@.take(v.len() as int) == v@);
    r
}

/// Whether an archive entry is a file of the overrides: its name begins with the
/// directory `overrides/` or `client_overrides/` and does not end in a slash, as the
/// name of a directory does.
pub open spec fn is_override(name: Seq<char>) -> bool {
    &&& has_prefix_at(name, 0, "overrides/"@) || has_prefix_at(name, 0, "client_overrides/"@)
    &&& name.last() != '/'
}

/// Whether an archive entry is a file of the overrides.
pub fn is_override_entry(name: &str) -> (b: bool)
    ensures
        b == is_override(name@),
{
    let chars = chars_of(name);
    let plain = chars_of("overrides/");
    let client = chars_of("client_overrides/");
    if !(starts_with_at(&chars, 0, &plain) || starts_with_at(&chars, 0, &client)) {
        return false;
    }
    proof {
        reveal_strlit("overrides/");
        reveal_strlit("client_overrides/");
    }
    chars[chars.len() - 1] != '/'
}

/// A name whose first segment is two dots is no file of the overrides, and no file of
/// a pack with such a path is written.
pub proof fn lemma_parent_first_is_left_out(name: Seq<char>)
    requires
        split(name, '/')[0] == ".."@,
    ensures
        !is_override(name),
        !writable(name),
{
    reveal_strlit("..");
    reveal_strlit(".");
    reveal_strlit("overrides/");
    reveal_strlit("client_overrides/");
    lemma_first_segment(name);
    let first = split(name, '/')[0];
    assert(name[0] == name.take(2)[0]);
    assert(first[0] == '.');
    if has_prefix_at(name, 0, "overrides/"@) {
        assert(name[0] == name.subrange(0, 10)[0]);
    }
    if has_prefix_at(name, 0, "client_overrides/"@) {
        assert(name[0] == name.subrange(0, 17)[0]);
    }
}

/// The first segment of a text is the text up to its first slash, or the whole text
/// where it has no slash.
pub proof fn lemma_first_segment(s: Seq<char>)
    ensures
        split(s, '/').len() >= 1,
        split(s, '/')[0].len() <= s.len(),
        split(s, '/')[0] == s.take(split(s, '/')[0].len() as int),
        split(s, '/').len() == 1 ==> split(s, '/')[0] == s,
        split(s, '/').len() > 1 ==> split(s, '/')[0].len() < s.len() && s[split(
            s,
            '/',
        )[0].len() as int] == '/',
    decreases s.len(),
{
    crate::text::lemma_split_pieces(s, '/');
    if s.len() == 0 {
        assert(split(s, '/')[0] == s.take(0));
    } else {
        let t = s.drop_last();
        lemma_first_segment(t);
        let head = split(t, '/');
        let first = split(s, '/')[0];
        if s.last() != '/' && head.len() == 1 {
            assert(first == head[0].push(s.last()));
            assert(t.push(s.last()) == s);
            assert(s.take(s.len() as int) == s);
        } else {
            assert(first == head[0]);
            let n = first.len() as int;
            assert(n <= t.len());
            assert(s.take(n) == t.take(n));
            if head.len() == 1 {
                assert(t.take(t.len() as int) == t);
            }
        }
    }
}

/// The segments that are kept when a path is stripped of its first segment count,
/// and none of them holds a slash.
proof fn lemma_strip(segments: Seq<Seq<char>>, n: int)
    requires
        0 <= n <= segments.len(),
        crate::text::all_free_of(segments, '/'),
    ensures
        forall|i: int|
            0 <= i < strip(segments, n).len() ==> counts(#[trigger] strip(segments, n)[i])
                && crate::text::free_of(strip(segments, n)[i], '/'),
    decreases n,
{
    if n > 1 {
        lemma_strip(segments, n - 1);
        let before = strip(segments, n - 1);
        let here = strip(segments, n);
        assert forall|i: int| 0 <= i < here.len() implies counts(#[trigger] here[i])
            && crate::text::free_of(here[i], '/') by {
            if i < before.len() {
                assert(here[i] == before[i]);
            } else {
                assert(here[i] == segments[n - 1]);
            }
        }
    }
}

/// A file of the overrides is written only at a path that begins with a name: where
/// the name of an entry without its first segment names a file and does not begin
/// with two dots, a file may be written at it.
pub proof fn lemma_stripped_path_is_writable(name: Seq<char>)
    requires
        lands(stripped(name)),
    ensures
        head_of(spelled(stripped(name))) == Head::Normal,
        writable(spelled(stripped(name))),
{
    reveal_strlit("..");
    reveal_strlit(".");
    let segments = stripped(name);
    let path = spelled(segments);
    crate::text::lemma_split_pieces(name, '/');
    lemma_strip(split(name, '/'), split(name, '/').len() as int);
    assert(crate::text::all_free_of(segments, '/')) by {
        assert forall|i: int| 0 <= i < segments.len() implies crate::text::free_of(
            #[trigger] segments[i],
            '/',
        ) by {
            assert(counts(segments[i]));
        }
    }
    crate::text::lemma_split_join(segments, '/');
    lemma_first_segment(path);
    let first = segments[0];
    assert(counts(first));
    assert(split(path, '/')[0] == first);
    assert(path.take(first.len() as int)[0] == first[0]);
    assert(first[0] != '/');
}

} // verus!
