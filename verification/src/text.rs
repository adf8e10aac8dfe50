//! Small operations on strings, stated over their character sequences.

use vstd::prelude::*;
use vstd::string::*;

verus! {

/// `String::push` of the standard library: appends one character to the end
/// of the string and changes nothing else.
pub assume_specification[ String::push ](s: &mut String, c: char)
    ensures
        final(s)@ == old(s)@.push(c),
;

/// The characters of `s`, in order.
pub fn chars_of(s: &str) -> (v: Vec<char>)
    ensures
        v@ == s@,
{
    let mut v: Vec<char> = Vec::new();
    for c in it: s.chars()
        invariant
            it.seq() == s@,
            v@ == s@.take(it.index() as int),
    {
        v.push(c);
    }
    v
}

/// The string that holds the characters `v[from..to]`.
pub(crate) fn string_of(v: &Vec<char>, from: usize, to: usize) -> (s: String)
    requires
        from <= to <= v.len(),
    ensures
        s@ == v@.subrange(from as int, to as int),
{
    let mut s = String::new();
    let mut i: usize = from;
    while i < to
        invariant
            from <= i <= to <= v.len(),
            s@ == v@.subrange(from as int, i as int),
        decreases to - i,
    {
        s.push(v[i]);
        i += 1;
        assert(v@.subrange(from as int, i as int) == v@.subrange(from as int, i - 1).push(
            v@[i - 1],
        ));
    }
    s
}

/// The separator of path segments, `::`.
pub open spec fn separator() -> Seq<char> {
    seq![':', ':']
}

/// The segments written one after another with `::` between them.
pub open spec fn join_path(segments: Seq<Seq<char>>) -> Seq<char>
    decreases segments.len(),
{
    if segments.len() == 0 {
        Seq::empty()
    } else if segments.len() == 1 {
        segments[0]
    } else {
        join_path(segments.drop_last()) + separator() + segments.last()
    }
}

/// The views of the strings of `parts`, in order.
pub open spec fn views_of(parts: Seq<String>) -> Seq<Seq<char>> {
    Seq::new(parts.len(), |i: int| parts[i]@)
}

/// The literal `::` is the separator.
pub proof fn lemma_separator_literal()
    ensures
        "::"@ == separator(),
{
    reveal_strlit("::");
    assert("::"@ =~= separator());
}

/// Writes the segments `parts[from..to]` with `::` between them.
pub(crate) fn join(parts: &Vec<String>, from: usize, to: usize) -> (s: String)
    requires
        from <= to <= parts.len(),
    ensures
        s@ == join_path(views_of(parts@).subrange(from as int, to as int)),
{
    let ghost all = views_of(parts@);
    let mut s = String::new();
    let mut i: usize = from;
    while i < to
        invariant
            from <= i <= to <= parts.len(),
            all == views_of(parts@),
            s@ == join_path(all.subrange(from as int, i as int)),
        decreases to - i,
    {
        if i > from {
            proof {
                lemma_separator_literal();
            }
            s.append("::");
        }
        s.append(parts[i].as_str());
        proof {
            let before = all.subrange(from as int, i as int);
            let after = all.subrange(from as int, i + 1);
            assert(after.drop_last() =~= before);
            assert(after.last() == parts@[i as int]@);
            if i == from {
                assert(before.len() == 0);
                assert(s@ =~= after[0]);
            }
        }
        i += 1;
    }
    s
}

/// The position of the first `::` of `s` that starts at or after `from`, or
/// the length of `s` where there is none.
pub open spec fn next_separator(s: Seq<char>, from: int) -> int
    decreases s.len() - from,
{
    if from < 0 || from + 1 >= s.len() {
        s.len() as int
    } else if s[from] == ':' && s[from + 1] == ':' {
        from
    } else {
        next_separator(s, from + 1)
    }
}

/// The segments of `s` from position `from` on: the text between one `::`
/// and the next, read from the left.
pub open spec fn split_from(s: Seq<char>, from: int) -> Seq<Seq<char>>
    decreases s.len() - from,
{
    let at = next_separator(s, from);
    if from < 0 || from > s.len() {
        Seq::empty()
    } else if at < from || at + 2 > s.len() {
        seq![s.subrange(from, s.len() as int)]
    } else {
        seq![s.subrange(from, at)] + split_from(s, at + 2)
    }
}

/// The segments of a path: at least one, and one more for each `::`.
pub open spec fn split_path(s: Seq<char>) -> Seq<Seq<char>> {
    split_from(s, 0)
}

/// The position of the first `@` of `s` at or after `from`, or the length
/// of `s` where there is none.
pub open spec fn next_at_sign(s: Seq<char>, from: int) -> int
    decreases s.len() - from,
{
    if from < 0 || from >= s.len() {
        s.len() as int
    } else if s[from] == '@' {
        from
    } else {
        next_at_sign(s, from + 1)
    }
}

/// The discriminator of a last segment: what stands before its first `@`.
pub open spec fn discriminator_part(segment: Seq<char>) -> Option<Seq<char>> {
    let at = next_at_sign(segment, 0);
    if at < segment.len() {
        Some(segment.take(at))
    } else {
        None
    }
}

/// The name of a last segment: what stands after its first `@`, or all of
/// it where it has none.
pub open spec fn name_part(segment: Seq<char>) -> Seq<char> {
    let at = next_at_sign(segment, 0);
    if at < segment.len() {
        segment.skip(at + 1)
    } else {
        segment
    }
}

/// The position found by `next_separator` lies between `from` and the end.
pub proof fn lemma_next_separator_bounds(s: Seq<char>, from: int)
    requires
        0 <= from <= s.len(),
    ensures
        from <= next_separator(s, from) <= s.len(),
        next_separator(s, from) < s.len() ==> next_separator(s, from) + 2 <= s.len(),
    decreases s.len() - from,
{
    if from + 1 >= s.len() {
    } else if s[from] == ':' && s[from + 1] == ':' {
    } else {
        lemma_next_separator_bounds(s, from + 1);
    }
}

/// Finds the first `::` of `chars` at or after `from`.
pub(crate) fn find_separator(chars: &Vec<char>, from: usize) -> (at: usize)
    requires
        from <= chars.len(),
    ensures
        at == next_separator(chars@, from as int),
        from <= at <= chars.len(),
        at < chars.len() ==> at + 2 <= chars.len(),
{
    proof {
        lemma_next_separator_bounds(chars@, from as int);
    }
    let n = chars.len();
    let mut i: usize = from;
    while i < n && i + 1 < n
        invariant
            n == chars.len(),
            from <= i <= n,
            next_separator(chars@, from as int) == next_separator(chars@, i as int),
        decreases n - i,
    {
        if chars[i] == ':' && chars[i + 1] == ':' {
            return i;
        }
        i += 1;
    }
    n
}

/// Splits a path into its segments.
pub fn split(path: &str) -> (segments: Vec<String>)
    ensures
        views_of(segments@) == split_path(path@),
        segments.len() >= 1,
{
    let chars = chars_of(path);
    let n = chars.len();
    let mut segments: Vec<String> = Vec::new();
    let mut start: usize = 0;
    loop
        invariant
            n == chars.len(),
            chars@ == path@,
            start <= n,
            split_path(path@) == views_of(segments@) + split_from(path@, start as int),
        decreases n - start,
    {
        let at = find_separator(&chars, start);
        if at >= n {
            let ghost before = views_of(segments@);
            segments.push(string_of(&chars, start, n));
            assert(views_of(segments@) =~= before + seq![path@.subrange(start as int, n as int)]);
            return segments;
        }
        let ghost before = views_of(segments@);
        segments.push(string_of(&chars, start, at));
        assert(views_of(segments@) =~= before + seq![path@.subrange(start as int, at as int)]);
        assert(before + (seq![path@.subrange(start as int, at as int)] + split_from(path@, at + 2))
            =~= views_of(segments@) + split_from(path@, at + 2));
        start = at + 2;
    }
}

/// Splits a last segment into its discriminator, if it has one, and its
/// name.
pub fn split_discriminator(segment: &str) -> (r: (Option<String>, String))
    ensures
        crate::item::opt_view(r.0) == discriminator_part(segment@),
        r.1@ == name_part(segment@),
{
    let chars = chars_of(segment);
    let n = chars.len();
    let mut i: usize = 0;
    while i < n
        invariant
            n == chars.len(),
            chars@ == segment@,
            i <= n,
            next_at_sign(segment@, 0) == next_at_sign(segment@, i as int),
        decreases n - i,
    {
        if chars[i] == '@' {
            let disc = string_of(&chars, 0, i);
            let name = string_of(&chars, i + 1, n);
            return (Some(disc), name);
        }
        i += 1;
    }
    (None, string_of(&chars, 0, n))
}

/// Joining one segment in front: the segment, `::`, and the rest joined.
pub proof fn lemma_join_path_front(first: Seq<char>, rest: Seq<Seq<char>>)
    requires
        rest.len() >= 1,
    ensures
        join_path(seq![first] + rest) == first + separator() + join_path(rest),
    decreases rest.len(),
{
    let all = seq![first] + rest;
    assert(all.last() == rest.last());
    assert(all.drop_last() =~= seq![first] + rest.drop_last());
    if rest.len() == 1 {
        assert(all.drop_last() =~= seq![first]);
        assert(join_path(all.drop_last()) == first);
        assert(join_path(rest) == rest[0]);
    } else {
        lemma_join_path_front(first, rest.drop_last());
        assert(join_path(all) =~= first + separator() + join_path(rest));
    }
}

/// A path has at least one segment.
pub proof fn lemma_split_from_nonempty(s: Seq<char>, from: int)
    requires
        0 <= from <= s.len(),
    ensures
        split_from(s, from).len() >= 1,
{
}

/// Joining the segments of a text gives the text back.
pub proof fn lemma_join_split_from(s: Seq<char>, from: int)
    requires
        0 <= from <= s.len(),
    ensures
        join_path(split_from(s, from)) == s.subrange(from, s.len() as int),
    decreases s.len() - from,
{
    let at = next_separator(s, from);
    lemma_next_separator_bounds(s, from);
    if at < from || at + 2 > s.len() {
        assert(split_from(s, from) =~= seq![s.subrange(from, s.len() as int)]);
    } else {
        lemma_next_separator_at(s, from);
        lemma_join_split_from(s, at + 2);
        lemma_split_from_nonempty(s, at + 2);
        lemma_join_path_front(s.subrange(from, at), split_from(s, at + 2));
        assert(s.subrange(from, at) + separator() + s.subrange(at + 2, s.len() as int)
            =~= s.subrange(from, s.len() as int));
    }
}

/// Joining the segments of a path gives the path back.
pub proof fn lemma_join_split(s: Seq<char>)
    ensures
        join_path(split_path(s)) == s,
{
    lemma_join_split_from(s, 0);
    assert(s.subrange(0, s.len() as int) =~= s);
}

/// Where `next_separator` finds a position before the end, a `::` stands
/// there.
pub proof fn lemma_next_separator_at(s: Seq<char>, from: int)
    requires
        0 <= from <= s.len(),
    ensures
        next_separator(s, from) + 2 <= s.len() ==> s[next_separator(s, from)] == ':' && s[next_separator(
            s,
            from,
        ) + 1] == ':',
    decreases s.len() - from,
{
    if from + 1 >= s.len() {
    } else if s[from] == ':' && s[from + 1] == ':' {
    } else {
        lemma_next_separator_at(s, from + 1);
    }
}

/// The separators of a text that stands behind another are those of the
/// text, moved by the length of what stands before.
pub proof fn lemma_next_separator_shift(before: Seq<char>, s: Seq<char>, from: int)
    requires
        0 <= from <= s.len(),
    ensures
        next_separator(before + s, before.len() + from) == before.len() + next_separator(s, from),
    decreases s.len() - from,
{
    let all = before + s;
    if from + 1 >= s.len() {
    } else {
        assert(all[before.len() + from] == s[from]);
        assert(all[before.len() + from + 1] == s[from + 1]);
        if s[from] == ':' && s[from + 1] == ':' {
        } else {
            lemma_next_separator_shift(before, s, from + 1);
        }
    }
}

/// The segments of a text that stands behind another are those of the text
/// alone.
pub proof fn lemma_split_from_shift(before: Seq<char>, s: Seq<char>, from: int)
    requires
        0 <= from <= s.len(),
    ensures
        split_from(before + s, before.len() + from) == split_from(s, from),
    decreases s.len() - from,
{
    let all = before + s;
    let at = next_separator(s, from);
    lemma_next_separator_shift(before, s, from);
    lemma_next_separator_bounds(s, from);
    if at < from || at + 2 > s.len() {
        assert(all.subrange(before.len() + from, all.len() as int) =~= s.subrange(
            from,
            s.len() as int,
        ));
    } else {
        lemma_split_from_shift(before, s, at + 2);
        assert(all.subrange(before.len() + from, before.len() + at) =~= s.subrange(from, at));
    }
}

/// A text without a colon holds no separator: the first one of what it is
/// followed by `::` stands right behind it.
pub proof fn lemma_next_separator_skips_clean(name: Seq<char>, rest: Seq<char>, from: int)
    requires
        0 <= from <= name.len(),
        forall|i: int| 0 <= i < name.len() ==> name[i] != ':',
    ensures
        next_separator(name + separator() + rest, from) == name.len(),
    decreases name.len() - from,
{
    let all = name + separator() + rest;
    assert(all.len() == name.len() + 2 + rest.len());
    assert(all[name.len() as int] == ':');
    assert(all[name.len() as int + 1] == ':');
    if from < name.len() {
        assert(all[from] == name[from]);
        lemma_next_separator_skips_clean(name, rest, from + 1);
    }
}

/// The segments of `name::rest`, where `name` holds no colon, are `name`
/// and the segments of `rest`.
pub proof fn lemma_split_leading_segment(name: Seq<char>, rest: Seq<char>)
    requires
        forall|i: int| 0 <= i < name.len() ==> name[i] != ':',
    ensures
        split_path(name + separator() + rest) == seq![name] + split_path(rest),
{
    let all = name + separator() + rest;
    lemma_next_separator_skips_clean(name, rest, 0);
    lemma_split_from_shift(name + separator(), rest, 0);
    assert(all.subrange(0, name.len() as int) =~= name);
    assert((name + separator()).len() == name.len() + 2);
}

/// A text holds no colon.
pub open spec fn has_no_colon(text: Seq<char>) -> bool {
    forall|i: int| 0 <= i < text.len() ==> text[i] != ':'
}

/// A text without a colon holds no separator.
pub proof fn lemma_next_separator_none(text: Seq<char>, from: int)
    requires
        has_no_colon(text),
        0 <= from <= text.len(),
    ensures
        next_separator(text, from) == text.len(),
    decreases text.len() - from,
{
    if from + 1 < text.len() {
        lemma_next_separator_none(text, from + 1);
    }
}

/// Behind a text that does not end in a colon, and before a last segment
/// without one, the separators are those of the text and the one that was
/// put between the two.
pub proof fn lemma_next_separator_before_last(text: Seq<char>, last: Seq<char>, from: int)
    requires
        text.len() > 0,
        text.last() != ':',
        has_no_colon(last),
        0 <= from <= text.len(),
    ensures
        next_separator(text + separator() + last, from) == if next_separator(text, from) + 2
            <= text.len() {
            next_separator(text, from)
        } else {
            text.len() as int
        },
    decreases text.len() - from,
{
    let all = text + separator() + last;
    assert(all.len() == text.len() + 2 + last.len());
    assert(all[text.len() as int] == ':');
    assert(all[text.len() as int + 1] == ':');
    lemma_next_separator_bounds(text, from);
    if from < text.len() {
        assert(all[from] == text[from]);
        if from + 1 < text.len() {
            assert(all[from + 1] == text[from + 1]);
            if text[from] == ':' && text[from + 1] == ':' {
            } else {
                lemma_next_separator_before_last(text, last, from + 1);
                lemma_next_separator_bounds(text, from + 1);
            }
        } else {
            assert(text[from] == text.last());
            lemma_next_separator_before_last(text, last, from + 1);
        }
    }
}

/// The segments, from `from` on, of a text followed by `::` and a last
/// segment are those of the text and the last segment.
pub proof fn lemma_split_from_before_last(text: Seq<char>, last: Seq<char>, from: int)
    requires
        text.len() > 0,
        text.last() != ':',
        has_no_colon(last),
        0 <= from <= text.len(),
    ensures
        split_from(text + separator() + last, from) == split_from(text, from).push(last),
    decreases text.len() - from,
{
    let all = text + separator() + last;
    let at = next_separator(text, from);
    lemma_next_separator_before_last(text, last, from);
    lemma_next_separator_bounds(text, from);
    if at + 2 <= text.len() {
        lemma_split_from_before_last(text, last, at + 2);
        assert(all.subrange(from, at) =~= text.subrange(from, at));
        assert(seq![text.subrange(from, at)] + split_from(text, at + 2).push(last) =~= (seq![
            text.subrange(from, at),
        ] + split_from(text, at + 2)).push(last));
    } else {
        assert(all.subrange(from, text.len() as int) =~= text.subrange(from, text.len() as int));
        lemma_split_from_shift(text + separator(), last, 0);
        assert((text + separator()).len() == text.len() + 2);
        lemma_next_separator_none(last, 0);
        assert(last.subrange(0, last.len() as int) =~= last);
        assert(split_from(last, 0) =~= seq![last]);
        assert(split_from(all, text.len() as int + 2) == seq![last]);
        assert(seq![text.subrange(from, text.len() as int)] + seq![last] =~= seq![
            text.subrange(from, text.len() as int),
        ].push(last));
    }
}

/// The segments of `text::last`, where `text` does not end in a colon and
/// `last` holds none, are the segments of `text` and `last`.
pub proof fn lemma_split_trailing_segment(text: Seq<char>, last: Seq<char>)
    requires
        text.len() > 0,
        text.last() != ':',
        has_no_colon(last),
    ensures
        split_path(text + separator() + last) == split_path(text).push(last),
{
    lemma_split_from_before_last(text, last, 0);
}

/// The first `@` of `disc@name` is the one written between the two, where
/// `disc` holds none.
pub proof fn lemma_next_at_sign_after(disc: Seq<char>, name: Seq<char>, from: int)
    requires
        forall|i: int| 0 <= i < disc.len() ==> disc[i] != '@',
        0 <= from <= disc.len(),
    ensures
        next_at_sign(disc + seq!['@'] + name, from) == disc.len(),
    decreases disc.len() - from,
{
    let all = disc + seq!['@'] + name;
    assert(all[disc.len() as int] == '@');
    if from < disc.len() {
        assert(all[from] == disc[from]);
        lemma_next_at_sign_after(disc, name, from + 1);
    }
}

/// A last segment `disc@name` is read as the discriminator `disc` and the
/// name `name`, where `disc` holds no `@`.
pub proof fn lemma_qualified_segment_parts(disc: Seq<char>, name: Seq<char>)
    requires
        forall|i: int| 0 <= i < disc.len() ==> disc[i] != '@',
    ensures
        discriminator_part(disc + seq!['@'] + name) == Some(disc),
        name_part(disc + seq!['@'] + name) == name,
{
    let all = disc + seq!['@'] + name;
    lemma_next_at_sign_after(disc, name, 0);
    assert(all.take(disc.len() as int) =~= disc);
    assert(all.skip(disc.len() as int + 1) =~= name);
}

/// A joined path ends as its last segment ends.
pub proof fn lemma_join_path_last(segments: Seq<Seq<char>>)
    requires
        segments.len() >= 1,
        segments.last().len() > 0,
    ensures
        join_path(segments).len() > 0,
        join_path(segments).last() == segments.last().last(),
{
}

} // verus!
