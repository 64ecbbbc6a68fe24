//! Merging settings into the text of a game options file.
//!
//! The file is read line by line. A line sets a key when it begins with the key and a
//! colon; what follows the colon is the value.
use crate::text::{
    chars_of, free_of, has_prefix_at, join, join_chars, lemma_join_split,
    lemma_split_join, lemma_split_pieces, lemma_split_tail, split, split_chars, starts_with_at,
    string_of, views,
};
use vstd::prelude::*;

verus! {

/// The line that sets `key` to `value`.
pub open spec fn setting(key: Seq<char>, value: Seq<char>) -> Seq<char> {
    key + seq![':'] + value
}

/// Whether `line` sets `key`.
pub open spec fn sets_key(line: Seq<char>, key: Seq<char>) -> bool {
    has_prefix_at(line, 0, key.push(':'))
}

/// Whether some line sets `key`.
pub open spec fn has_setting(lines: Seq<Seq<char>>, key: Seq<char>) -> bool {
    exists|i: int| 0 <= i < lines.len() && sets_key(#[trigger] lines[i], key)
}

/// Whether line `i` is the first one that sets `key`.
pub open spec fn is_first_setting(lines: Seq<Seq<char>>, key: Seq<char>, i: int) -> bool {
    &&& 0 <= i < lines.len()
    &&& sets_key(lines[i], key)
    &&& forall|j: int| 0 <= j < i ==> !sets_key(#[trigger] lines[j], key)
}

/// The text after `key` was set to `value`: the first line that sets `key` is
/// replaced; where no line sets it, a line break and the new line are added at the end.
pub open spec fn merged(text: Seq<char>, key: Seq<char>, value: Seq<char>) -> Seq<char> {
    let lines = split(text, '\n');
    if has_setting(lines, key) {
        let i = choose|i: int| is_first_setting(lines, key, i);
        join(lines.update(i, setting(key, value)), '\n')
    } else {
        text + seq!['\n'] + setting(key, value)
    }
}

/// The text after the first `n` pairs were merged into it, one after the other.
pub open spec fn merged_all(text: Seq<char>, pairs: Seq<(String, String)>, n: int) -> Seq<char>
    decreases n,
{
    if n <= 0 {
        text
    } else {
        merged(merged_all(text, pairs, n - 1), pairs[n - 1].0@, pairs[n - 1].1@)
    }
}

/// Sets `key` to `value` in the text of an options file.
pub fn merge_option(text: &str, key: &str, value: &str) -> (r: String)
    ensures
        r@ == merged(text@, key@, value@),
{
    let chars = chars_of(text);
    let mut lines = split_chars(&chars, '\n');
    let mut line = chars_of(key);
    line.push(':');
    let mut i: usize = 0;
    let mut found = false;
    while i < lines.len() && !found
        invariant
            i <= lines.len(),
            line@ == key@.push(':'),
            found ==> i < lines.len() && sets_key(lines@[i as int]@, key@),
            forall|j: int| 0 <= j < i ==> !sets_key(#[trigger] views(lines@)[j], key@),
        decreases lines.len() - i + (if found { 0int } else { 1int }),
    {
        if starts_with_at(&lines[i], 0, &line) {
            found = true;
        } else {
            i += 1;
        }
    }
    let ghost old_lines = views(lines@);
    let v = chars_of(value);
    let mut k: usize = 0;
    while k < v.len()
        invariant
            k <= v.len(),
            line@ == key@.push(':') + v@.take(k as int),
        decreases v.len() - k,
    {
        line.push(v[k]);
        assert(v@.take(k + 1) == v@.take(k as int).push(v@[k as int]));
        k += 1;
    }
    assert(v@.take(v.len() as int) == v@);
    assert(line@ == setting(key@, value@));
    if found {
        assert(is_first_setting(old_lines, key@, i as int));
        assert(has_setting(old_lines, key@));
        lines.set(i, line);
        assert(views(lines@) == old_lines.update(i as int, setting(key@, value@)));
        let out = join_chars(&lines, '\n');
        string_of(&out, 0, out.len())
    } else {
        assert(!has_setting(old_lines, key@));
        let mut r = text.to_owned();
        r.push('\n');
        let tail = string_of(&line, 0, line.len());
        r.append(tail.as_str());
        assert(line@.subrange(0, line.len() as int) == line@);
        assert(text@.push('\n') == text@ + seq!['\n']);
        r
    }
}

/// Sets each key of `pairs` to its value, in the order of the list.
pub fn merge_options(text: &str, pairs: &Vec<(String, String)>) -> (r: String)
    ensures
        r@ == merged_all(text@, pairs@, pairs.len() as int),
{
    let mut r = text.to_owned();
    let mut n: usize = 0;
    while n < pairs.len()
        invariant
            n <= pairs.len(),
            r@ == merged_all(text@, pairs@, n as int),
        decreases pairs.len() - n,
    {
        let pair = &pairs[n];
        r = merge_option(r.as_str(), pair.0.as_str(), pair.1.as_str());
        n += 1;
    }
    r
}

/// Where a line sets the key, the merge changes that line and no other: the text keeps
/// its number of lines, the first line that sets the key becomes `key:value`, and it is
/// still the first one that sets the key.
pub proof fn lemma_merge_replaces_first_line(
    text: Seq<char>,
    key: Seq<char>,
    value: Seq<char>,
    i: int,
)
    requires
        free_of(key, '\n'),
        free_of(value, '\n'),
        is_first_setting(split(text, '\n'), key, i),
    ensures
        split(merged(text, key, value), '\n') == split(text, '\n').update(i, setting(key, value)),
        is_first_setting(split(merged(text, key, value), '\n'), key, i),
{
    let lines = split(text, '\n');
    let line = setting(key, value);
    lemma_split_pieces(text, '\n');
    assert(sets_key(lines[i], key));
    assert(has_setting(lines, key));
    let c = choose|c: int| is_first_setting(lines, key, c);
    assert(is_first_setting(lines, key, c));
    assert(c == i) by {
        if c < i {
            assert(!sets_key(lines[c], key));
        }
        if i < c {
            assert(!sets_key(lines[i], key));
        }
    }
    let after = lines.update(i, line);
    assert(free_of(line, '\n'));
    assert forall|j: int| 0 <= j < after.len() implies free_of(#[trigger] after[j], '\n') by {
        if j != i {
            assert(after[j] == lines[j]);
        }
    }
    lemma_split_join(after, '\n');
    lemma_setting_sets_key(key, value);
    assert forall|j: int| 0 <= j < i implies !sets_key(#[trigger] after[j], key) by {
        assert(after[j] == lines[j]);
    }
}

/// Where no line sets the key, the merge adds one line at the end, which is then the
/// only line that sets the key.
pub proof fn lemma_merge_appends_line(text: Seq<char>, key: Seq<char>, value: Seq<char>)
    requires
        free_of(key, '\n'),
        free_of(value, '\n'),
        !has_setting(split(text, '\n'), key),
    ensures
        split(merged(text, key, value), '\n') == split(text, '\n').push(setting(key, value)),
        is_first_setting(
            split(merged(text, key, value), '\n'),
            key,
            split(text, '\n').len() as int,
        ),
{
    let lines = split(text, '\n');
    let line = setting(key, value);
    let e = Seq::<char>::empty();
    lemma_split_pieces(text, '\n');
    let broken = text + seq!['\n'];
    assert(broken.drop_last() == text);
    assert(split(broken, '\n') == lines.push(e));
    assert(free_of(line, '\n'));
    lemma_split_tail(broken, line, '\n');
    assert(lines.push(e).drop_last() == lines);
    assert(e + line == line);
    lemma_setting_sets_key(key, value);
    let after = lines.push(line);
    assert forall|j: int| 0 <= j < lines.len() implies !sets_key(#[trigger] after[j], key) by {
        assert(after[j] == lines[j]);
    }
}

/// The line `key:value` sets `key`.
pub proof fn lemma_setting_sets_key(key: Seq<char>, value: Seq<char>)
    ensures
        sets_key(setting(key, value), key),
{
    let line = setting(key, value);
    assert(line.subrange(0, key.len() as int + 1) == key.push(':'));
}

/// Merging the same setting twice gives what merging it once gives.
pub proof fn lemma_merge_twice(text: Seq<char>, key: Seq<char>, value: Seq<char>)
    requires
        free_of(key, '\n'),
        free_of(value, '\n'),
    ensures
        merged(merged(text, key, value), key, value) == merged(text, key, value),
{
    let lines = split(text, '\n');
    let once = merged(text, key, value);
    let line = setting(key, value);
    let i: int = if has_setting(lines, key) {
        let c = choose|c: int| 0 <= c < lines.len() && sets_key(#[trigger] lines[c], key);
        lemma_first_setting_exists(lines, key, c);
        let f = choose|f: int| is_first_setting(lines, key, f);
        lemma_merge_replaces_first_line(text, key, value, f);
        f
    } else {
        lemma_merge_appends_line(text, key, value);
        lines.len() as int
    };
    let after = split(once, '\n');
    assert(is_first_setting(after, key, i));
    assert(after[i] == line);
    lemma_merge_replaces_first_line(once, key, value, i);
    assert(after.update(i, line) == after);
    assert(split(merged(once, key, value), '\n') == after);
    lemma_join_split(merged(once, key, value), '\n');
    lemma_join_split(once, '\n');
}

/// Among the lines up to one that sets the key there is a first that sets it.
proof fn lemma_first_setting_exists(lines: Seq<Seq<char>>, key: Seq<char>, c: int)
    requires
        0 <= c < lines.len(),
        sets_key(lines[c], key),
    ensures
        exists|f: int| is_first_setting(lines, key, f),
    decreases c,
{
    if forall|j: int| 0 <= j < c ==> !sets_key(#[trigger] lines[j], key) {
        assert(is_first_setting(lines, key, c));
    } else {
        let j = choose|j: int| 0 <= j < c && sets_key(#[trigger] lines[j], key);
        lemma_first_setting_exists(lines, key, j);
    }
}

} // verus!
