//! Paths: names made of segments with a separator character between them.
use vstd::prelude::*;
use crate::text::texts;

verus! {

/// The segments of `s` between occurrences of `sep`. A text without the
/// separator is one segment; each separator ends one segment and starts the
/// next, so a text with `n` separators has `n + 1` segments, some of which
/// may be empty.
pub open spec fn split_on(s: Seq<char>, sep: char) -> Seq<Seq<char>>
    decreases s.len(),
{
    if s.len() == 0 {
        seq![Seq::<char>::empty()]
    } else {
        let before = split_on(s.drop_last(), sep);
        if s.last() == sep {
            before.push(Seq::<char>::empty())
        } else {
            before.drop_last().push(before.last().push(s.last()))
        }
    }
}

/// The segments written one after the other with `sep` between neighbours.
pub open spec fn join(segments: Seq<Seq<char>>, sep: char) -> Seq<char>
    decreases segments.len(),
{
    if segments.len() == 0 {
        Seq::<char>::empty()
    } else if segments.len() == 1 {
        segments[0]
    } else {
        join(segments.drop_last(), sep).push(sep) + segments.last()
    }
}

/// Every segment holds at least one character.
pub open spec fn all_nonempty(segments: Seq<Seq<char>>) -> bool {
    forall|k: int| 0 <= k < segments.len() ==> (#[trigger] segments[k]).len() > 0
}

/// No segment holds the separator.
pub open spec fn all_free_of(segments: Seq<Seq<char>>, sep: char) -> bool {
    forall|k: int| 0 <= k < segments.len() ==> !(#[trigger] segments[k]).contains(sep)
}

/// A path is well formed when none of its segments is empty.
pub open spec fn well_formed_path(s: Seq<char>, sep: char) -> bool {
    all_nonempty(split_on(s, sep))
}

/// A text has an empty segment when it is empty, starts or ends with the
/// separator, or holds two separators in a row.
pub open spec fn has_empty_segment(s: Seq<char>, sep: char) -> bool {
    ||| s.len() == 0
    ||| s[0] == sep
    ||| s.last() == sep
    ||| has_doubled(s, sep)
}

/// Splitting always yields at least one segment, and no segment holds the
/// separator.
pub proof fn lemma_split_shape(s: Seq<char>, sep: char)
    ensures
        split_on(s, sep).len() >= 1,
        all_free_of(split_on(s, sep), sep),
        split_on(s, sep).last().len() == 0 <==> (s.len() == 0 || s.last() == sep),
    decreases s.len(),
{
    if s.len() > 0 {
        lemma_split_shape(s.drop_last(), sep);
        let before = split_on(s.drop_last(), sep);
        if s.last() != sep {
            let grown = before.last().push(s.last());
            assert forall|c: char| grown.contains(c) implies c == s.last() || before.last().contains(
                c,
            ) by {
                let i = choose|i: int| 0 <= i < grown.len() && grown[i] == c;
                if i < before.last().len() {
                    assert(before.last()[i] == c);
                }
            }
            assert(grown[grown.len() - 1] == s.last());
        }
    }
}

/// Joining the segments of a text gives the text back.
pub proof fn lemma_join_split(s: Seq<char>, sep: char)
    ensures
        join(split_on(s, sep), sep) == s,
    decreases s.len(),
{
    if s.len() == 0 {
    } else {
        let front = s.drop_last();
        lemma_join_split(front, sep);
        lemma_split_shape(front, sep);
        let before = split_on(front, sep);
        if s.last() == sep {
            let after = before.push(Seq::<char>::empty());
            assert(after.drop_last() == before);
            assert(join(after, sep) == join(before, sep).push(sep) + Seq::<char>::empty());
            assert(front.push(sep) + Seq::<char>::empty() == s);
        } else {
            let after = before.drop_last().push(before.last().push(s.last()));
            if before.len() == 1 {
                assert(before[0] == front);
                assert(after[0] == front.push(s.last()));
                assert(front.push(s.last()) == s);
            } else {
                assert(after.drop_last() == before.drop_last());
                let stem = join(before.drop_last(), sep).push(sep);
                assert(join(before, sep) == stem + before.last());
                assert(join(after, sep) == stem + before.last().push(s.last()));
                assert(stem + before.last().push(s.last()) == (stem + before.last()).push(
                    s.last(),
                ));
                assert(front.push(s.last()) == s);
            }
        }
    }
}

/// Appending a separator-free text to a text extends its last segment.
proof fn lemma_split_append(s: Seq<char>, t: Seq<char>, sep: char)
    requires
        !t.contains(sep),
    ensures
        split_on(s + t, sep) == split_on(s, sep).drop_last().push(split_on(s, sep).last() + t),
    decreases t.len(),
{
    lemma_split_shape(s, sep);
    let parts = split_on(s, sep);
    if t.len() == 0 {
        assert(s + t == s);
        assert(parts.last() + t == parts.last());
        assert(parts.drop_last().push(parts.last()) == parts);
    } else {
        let tf = t.drop_last();
        assert(tf.len() < t.len());
        assert forall|c: char| tf.contains(c) implies t.contains(c) by {
            let i = choose|i: int| 0 <= i < tf.len() && tf[i] == c;
            assert(t[i] == c);
        }
        assert(t[t.len() - 1] == t.last());
        assert(t.contains(t.last()));
        lemma_split_append(s, tf, sep);
        assert((s + t).drop_last() == s + tf);
        assert((s + t).last() == t.last());
        let mid = parts.drop_last().push(parts.last() + tf);
        assert(mid.drop_last() == parts.drop_last());
        assert((parts.last() + tf).push(t.last()) == parts.last() + t);
    }
}

/// Splitting the join of separator-free segments gives the segments back.
pub proof fn lemma_split_join(segments: Seq<Seq<char>>, sep: char)
    requires
        segments.len() >= 1,
        all_free_of(segments, sep),
    ensures
        split_on(join(segments, sep), sep) == segments,
    decreases segments.len(),
{
    let empty = Seq::<char>::empty();
    if segments.len() == 1 {
        lemma_split_append(empty, segments[0], sep);
        assert(empty + segments[0] == segments[0]);
        assert(split_on(empty, sep) == seq![empty]);
        assert(seq![empty].drop_last().push(empty + segments[0]) == segments);
    } else {
        let front = segments.drop_last();
        assert(all_free_of(front, sep)) by {
            assert forall|k: int| 0 <= k < front.len() implies !(#[trigger] front[k]).contains(
                sep,
            ) by {
                assert(front[k] == segments[k]);
            }
        }
        lemma_split_join(front, sep);
        let stem = join(front, sep).push(sep);
        assert(stem.drop_last() == join(front, sep));
        assert(split_on(stem, sep) == front.push(empty));
        lemma_split_append(stem, segments.last(), sep);
        assert(front.push(empty).drop_last() == front);
        assert(empty + segments.last() == segments.last());
        assert(front.push(segments.last()) == segments);
    }
}

/// Whether a segment before the last one is empty.
pub open spec fn has_empty_inner_segment(s: Seq<char>, sep: char) -> bool {
    exists|k: int| 0 <= k < split_on(s, sep).len() - 1 && (#[trigger] split_on(s, sep)[k]).len() == 0
}

/// Whether the text holds two separators in a row.
pub open spec fn has_doubled(s: Seq<char>, sep: char) -> bool {
    exists|i: int| 0 <= i < s.len() - 1 && s[i] == sep && #[trigger] s[i + 1] == sep
}

/// Two separators in a row stay where they are when a character is added
/// at the end, and a new pair arises only at the end.
proof fn lemma_doubled_grows(s: Seq<char>, sep: char)
    requires
        s.len() > 0,
    ensures
        has_doubled(s, sep) <==> has_doubled(s.drop_last(), sep) || (s.len() > 1 && s[s.len() - 2]
            == sep && s.last() == sep),
{
    let front = s.drop_last();
    if has_doubled(front, sep) {
        let i = choose|i: int| 0 <= i < front.len() - 1 && front[i] == sep && #[trigger] front[i + 1]
            == sep;
        assert(s[i] == sep && s[i + 1] == sep);
    }
    if s.len() > 1 && s[s.len() - 2] == sep && s.last() == sep {
        let i = s.len() - 2;
        assert(s[i] == sep && s[i + 1] == sep);
    }
    if has_doubled(s, sep) {
        let i = choose|i: int| 0 <= i < s.len() - 1 && s[i] == sep && #[trigger] s[i + 1] == sep;
        if i + 1 < front.len() {
            assert(front[i] == sep && front[i + 1] == sep);
        }
    }
}

/// A segment before the last one is empty exactly when the text starts
/// with the separator or holds two separators in a row.
proof fn lemma_inner_segments(s: Seq<char>, sep: char)
    ensures
        has_empty_inner_segment(s, sep) <==> s.len() > 0 && (s[0] == sep || has_doubled(s, sep)),
    decreases s.len(),
{
    if s.len() > 0 {
        let front = s.drop_last();
        let before = split_on(front, sep);
        let parts = split_on(s, sep);
        lemma_inner_segments(front, sep);
        lemma_split_shape(front, sep);
        lemma_doubled_grows(s, sep);
        if front.len() > 0 {
            assert(s[0] == front[0]);
            assert(s[s.len() - 2] == front.last());
        }
        if has_empty_inner_segment(front, sep) {
            let k = choose|k: int| 0 <= k < before.len() - 1 && (#[trigger] before[k]).len() == 0;
            assert(parts[k] == before[k]);
        }
        if s.last() == sep {
            if before.last().len() == 0 {
                assert(parts[before.len() - 1] == before.last());
            }
            if has_empty_inner_segment(s, sep) {
                let k = choose|k: int| 0 <= k < parts.len() - 1 && (#[trigger] parts[k]).len() == 0;
                assert(parts[k] == before[k]);
            }
        } else {
            if has_empty_inner_segment(s, sep) {
                let k = choose|k: int| 0 <= k < parts.len() - 1 && (#[trigger] parts[k]).len() == 0;
                assert(parts[k] == before[k]);
            }
        }
    }
}

/// A text has an empty segment exactly when it is empty, starts or ends with
/// the separator, or holds two separators in a row.
pub proof fn lemma_empty_segment(s: Seq<char>, sep: char)
    ensures
        well_formed_path(s, sep) <==> !has_empty_segment(s, sep),
{
    let parts = split_on(s, sep);
    lemma_split_shape(s, sep);
    lemma_inner_segments(s, sep);
    assert(has_doubled(s, sep) == (exists|i: int|
        0 <= i < s.len() - 1 && s[i] == sep && #[trigger] s[i + 1] == sep));
    if has_empty_inner_segment(s, sep) {
        let k = choose|k: int| 0 <= k < parts.len() - 1 && (#[trigger] parts[k]).len() == 0;
        assert(parts[k].len() == 0);
    }
    if parts.last().len() == 0 {
        assert(parts[parts.len() - 1].len() == 0);
    }
    if !well_formed_path(s, sep) {
        let k = choose|k: int| 0 <= k < parts.len() && (#[trigger] parts[k]).len() == 0;
        if k < parts.len() - 1 {
            assert(has_empty_inner_segment(s, sep));
        }
    }
}

/// Splits `s` at every `sep` and returns the segments, or `None` when one of
/// them is empty.
pub fn split_path(s: &str, sep: char) -> (r: Option<Vec<String>>)
    ensures
        r is Some <==> well_formed_path(s@, sep),
        r matches Some(v) ==> texts(v@) == split_on(s@, sep),
{
    let mut done: Vec<String> = Vec::new();
    let mut current = String::new();
    for c in it: s.chars()
        invariant
            it.seq() == s@,
            texts(done@).push(current@) == split_on(s@.take(it.index()), sep),
    {
        proof {
            let i = it.index();
            assert(s@.take(i + 1).drop_last() == s@.take(i));
            assert(s@.take(i + 1).last() == c);
        }
        let ghost before = texts(done@).push(current@);
        if c == sep {
            done.push(current);
            current = String::new();
            assert(texts(done@) == before);
        } else {
            current.push(c);
            assert(texts(done@) == before.drop_last());
        }
    }
    assert(s@.take(s@.len() as int) == s@);
    done.push(current);
    assert(texts(done@) == split_on(s@, sep));
    let mut i: usize = 0;
    while i < done.len()
        invariant
            i <= done.len(),
            texts(done@) == split_on(s@, sep),
            forall|k: int| 0 <= k < i ==> (#[trigger] split_on(s@, sep)[k]).len() > 0,
        decreases done.len() - i,
    {
        if done[i].as_str().unicode_len() == 0 {
            assert(texts(done@)[i as int].len() == 0);
            return None;
        }
        assert(texts(done@)[i as int].len() > 0);
        i += 1;
    }
    Some(done)
}

/// Writes a path: its segments with `sep` between neighbours.
pub fn join_path(name: &Vec<String>, sep: char) -> (r: String)
    ensures
        r@ == join(texts(name@), sep),
{
    let mut r = String::new();
    let mut i: usize = 0;
    while i < name.len()
        invariant
            i <= name.len(),
            r@ == join(texts(name@).take(i as int), sep),
        decreases name.len() - i,
    {
        let ghost before = texts(name@).take(i as int);
        let ghost next = texts(name@).take(i + 1);
        assert(next.drop_last() =~= before);
        assert(next.last() == name@[i as int]@);
        if i > 0 {
            r.push(sep);
        }
        r.append(name[i].as_str());
        proof {
            if i == 0 {
                assert(r@ =~= next[0]);
            }
        }
        i += 1;
    }
    assert(texts(name@).take(name.len() as int) =~= texts(name@));
    r
}

} // verus!
