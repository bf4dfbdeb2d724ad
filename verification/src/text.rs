//! Text as sequences of characters: searching, replacing, joining and decimal numbers.

use vstd::prelude::*;
use vstd::string::*;

verus! {

/// `pattern` stands in `text` at position `at`.
pub open spec fn occurs_at(text: Seq<char>, pattern: Seq<char>, at: int) -> bool {
    &&& 0 <= at
    &&& at + pattern.len() <= text.len()
    &&& text.subrange(at, at + pattern.len()) == pattern
}

/// `pattern` stands somewhere in `text`.
pub open spec fn contains(text: Seq<char>, pattern: Seq<char>) -> bool {
    exists|at: int| occurs_at(text, pattern, at)
}

/// `text` with every occurrence of the non-empty `pattern` replaced by `with`. Occurrences are
/// taken from the left and do not overlap.
pub open spec fn replaced(text: Seq<char>, pattern: Seq<char>, with: Seq<char>) -> Seq<char>
    recommends
        pattern.len() > 0,
    decreases text.len(),
{
    if pattern.len() == 0 || text.len() < pattern.len() {
        text
    } else if occurs_at(text, pattern, 0) {
        with + replaced(text.skip(pattern.len() as int), pattern, with)
    } else {
        seq![text[0]] + replaced(text.skip(1), pattern, with)
    }
}

/// The characters of `text`, in order.
fn chars_of(text: &str) -> (chars: Vec<char>)
    ensures
        chars@ == text@,
{
    let mut chars: Vec<char> = Vec::new();
    for c in it: text.chars()
        invariant
            chars@ == it.seq().take(it.index() as int),
            it.seq() == text@,
    {
        chars.push(c);
    }
    chars
}

/// Whether `pattern` stands in `text` at position `at`.
fn matches_at(text: &Vec<char>, pattern: &Vec<char>, at: usize) -> (found: bool)
    requires
        at <= text@.len(),
    ensures
        found == occurs_at(text@, pattern@, at as int),
{
    let len: usize = text.len();
    if len - at < pattern.len() {
        return false;
    }
    let mut i: usize = 0;
    while i < pattern.len()
        invariant
            i <= pattern@.len(),
            len == text@.len(),
            at + pattern@.len() <= len,
            forall|k: int| 0 <= k < i ==> #[trigger] pattern@[k] == text@[at + k],
        decreases pattern@.len() - i,
    {
        if text[at + i] != pattern[i] {
            return false;
        }
        i = i + 1;
    }
    assert(text@.subrange(at as int, at + pattern@.len()) =~= pattern@);
    true
}

/// Whether `pattern` stands somewhere in `text`.
pub fn contains_text(text: &str, pattern: &str) -> (found: bool)
    ensures
        found == contains(text@, pattern@),
        found <==> exists|at: int|
            0 <= at && at + pattern@.len() <= text@.len() && #[trigger] text@.subrange(
                at,
                at + pattern@.len(),
            ) == pattern@,
{
    proof {
        lemma_contains_is_somewhere(text@, pattern@);
    }
    let chars = chars_of(text);
    let wanted = chars_of(pattern);
    let mut at: usize = 0;
    while at < chars.len()
        invariant
            at <= chars@.len(),
            chars@ == text@,
            wanted@ == pattern@,
            forall|k: int| 0 <= k < at ==> !occurs_at(text@, pattern@, k),
        decreases chars@.len() - at,
    {
        if matches_at(&chars, &wanted, at) {
            return true;
        }
        at = at + 1;
    }
    matches_at(&chars, &wanted, at)
}

/// `text` with every occurrence of `pattern` replaced by `with`, from the left.
pub fn replace_text(text: &str, pattern: &str, with: &str) -> (result: String)
    requires
        pattern@.len() > 0,
    ensures
        result@ == replaced(text@, pattern@, with@),
{
    let chars = chars_of(text);
    let wanted = chars_of(pattern);
    let mut result = String::new();
    // The part of `text` that was passed over and not written yet starts at `kept`.
    let mut kept: usize = 0;
    let mut at: usize = 0;
    assert(text@.skip(0) =~= text@);
    while at < chars.len()
        invariant
            kept <= at <= chars@.len(),
            chars@ == text@,
            wanted@ == pattern@,
            pattern@.len() > 0,
            replaced(text@, pattern@, with@) == result@ + text@.subrange(kept as int, at as int)
                + replaced(text@.skip(at as int), pattern@, with@),
        decreases chars@.len() - at,
    {
        let ghost rest = text@.skip(at as int);
        assert(occurs_at(rest, pattern@, 0) == occurs_at(text@, pattern@, at as int)) by {
            if at + pattern@.len() <= text@.len() {
                assert(rest.subrange(0, pattern@.len() as int) =~= text@.subrange(
                    at as int,
                    at + pattern@.len(),
                ));
            }
        }
        if matches_at(&chars, &wanted, at) {
            result.append(text.substring_char(kept, at));
            result.append(with);
            assert(rest.skip(pattern@.len() as int) =~= text@.skip(at + pattern@.len()));
            at = at + wanted.len();
            kept = at;
        } else {
            assert(rest.skip(1) =~= text@.skip(at + 1));
            assert(rest.len() < pattern@.len() ==> replaced(rest, pattern@, with@) == seq![rest[0]]
                + replaced(rest.skip(1), pattern@, with@));
            assert(text@.subrange(kept as int, at + 1) =~= text@.subrange(kept as int, at as int)
                + seq![rest[0]]);
            at = at + 1;
        }
        assert(replaced(text@, pattern@, with@) =~= result@ + text@.subrange(
            kept as int,
            at as int,
        ) + replaced(text@.skip(at as int), pattern@, with@));
    }
    result.append(text.substring_char(kept, at));
    result
}

/// `parts` one after another with `separator` between each two of them.
pub open spec fn joined(parts: Seq<Seq<char>>, separator: Seq<char>) -> Seq<char>
    decreases parts.len(),
{
    if parts.len() == 0 {
        seq![]
    } else if parts.len() == 1 {
        parts[0]
    } else {
        parts[0] + separator + joined(parts.skip(1), separator)
    }
}

/// What stands before, between and after the occurrences of the non-empty `pattern` in `text`,
/// taken from the left without overlap.
pub open spec fn pieces(text: Seq<char>, pattern: Seq<char>) -> Seq<Seq<char>>
    recommends
        pattern.len() > 0,
    decreases text.len(),
{
    if pattern.len() == 0 || text.len() < pattern.len() {
        seq![text]
    } else if occurs_at(text, pattern, 0) {
        seq![Seq::<char>::empty()] + pieces(text.skip(pattern.len() as int), pattern)
    } else {
        let rest = pieces(text.skip(1), pattern);
        seq![seq![text[0]] + rest[0]] + rest.skip(1)
    }
}

/// A pattern stands at a position exactly where its characters follow one another from there on.
pub proof fn lemma_occurs_at_is_char_by_char(text: Seq<char>, pattern: Seq<char>, at: int)
    ensures
        occurs_at(text, pattern, at) <==> 0 <= at && at + pattern.len() <= text.len() && (forall|
            k: int,
        |
            0 <= k < pattern.len() ==> text[at + k] == #[trigger] pattern[k]),
{
    if 0 <= at && at + pattern.len() <= text.len() {
        let window = text.subrange(at, at + pattern.len());
        if forall|k: int| 0 <= k < pattern.len() ==> text[at + k] == #[trigger] pattern[k] {
            assert(window =~= pattern);
        }
        if window == pattern {
            assert forall|k: int| 0 <= k < pattern.len() implies text[at + k]
                == #[trigger] pattern[k] by {
                assert(window[k] == text[at + k]);
            }
        }
    }
}

/// A text holds a pattern exactly where some stretch of it is the pattern.
pub proof fn lemma_contains_is_somewhere(text: Seq<char>, pattern: Seq<char>)
    ensures
        contains(text, pattern) <==> exists|at: int|
            0 <= at && at + pattern.len() <= text.len() && #[trigger] text.subrange(
                at,
                at + pattern.len(),
            ) == pattern,
{
    if contains(text, pattern) {
        let at = choose|at: int| occurs_at(text, pattern, at);
        assert(text.subrange(at, at + pattern.len()) == pattern);
    }
    if exists|at: int|
        0 <= at && at + pattern.len() <= text.len() && #[trigger] text.subrange(
            at,
            at + pattern.len(),
        ) == pattern {
        let at = choose|at: int|
            0 <= at && at + pattern.len() <= text.len() && #[trigger] text.subrange(
                at,
                at + pattern.len(),
            ) == pattern;
        assert(occurs_at(text, pattern, at));
    }
}

/// A text holds a pattern exactly where it is the pattern with something, or nothing, before and
/// behind it.
pub proof fn lemma_contains_is_between(text: Seq<char>, pattern: Seq<char>)
    ensures
        contains(text, pattern) <==> exists|before: Seq<char>, after: Seq<char>| text == #[trigger] (
        before + pattern + after),
{
    if contains(text, pattern) {
        let at = choose|at: int| occurs_at(text, pattern, at);
        assert(text =~= text.take(at) + pattern + text.skip(at + pattern.len())) by {
            assert(text =~= text.take(at) + text.subrange(at, at + pattern.len()) + text.skip(
                at + pattern.len(),
            ));
        }
    }
    if exists|before: Seq<char>, after: Seq<char>| text == #[trigger] (before + pattern + after) {
        let (before, after) = choose|before: Seq<char>, after: Seq<char>|
            text == #[trigger] (before + pattern + after);
        assert(text.subrange(before.len() as int, before.len() as int + pattern.len()) =~= pattern);
        assert(occurs_at(text, pattern, before.len() as int));
    }
}

/// A text that holds the pattern nowhere comes out as it is.
pub proof fn lemma_replaced_without_occurrence(
    text: Seq<char>,
    pattern: Seq<char>,
    with: Seq<char>,
)
    requires
        pattern.len() > 0,
        forall|at: int|
            0 <= at && at + pattern.len() <= text.len() ==> #[trigger] text.subrange(
                at,
                at + pattern.len(),
            ) != pattern,
    ensures
        replaced(text, pattern, with) == text,
    decreases text.len(),
{
    if text.len() >= pattern.len() {
        let tail = text.skip(1);
        assert(text.subrange(0, 0int + pattern.len()) != pattern);
        assert forall|at: int| 0 <= at && at + pattern.len() <= tail.len() implies
            #[trigger] tail.subrange(at, at + pattern.len()) != pattern by {
            assert(tail.subrange(at, at + pattern.len()) =~= text.subrange(
                at + 1,
                at + 1 + pattern.len(),
            ));
        }
        lemma_replaced_without_occurrence(tail, pattern, with);
        assert(seq![text[0]] + tail =~= text);
    }
}

/// What stands before the first occurrence is kept, the occurrence gives way, and what follows is
/// treated as a text of its own.
pub proof fn lemma_replaced_at_first_occurrence(
    before: Seq<char>,
    pattern: Seq<char>,
    after: Seq<char>,
    with: Seq<char>,
)
    requires
        pattern.len() > 0,
        forall|at: int|
            0 <= at < before.len() ==> #[trigger] (before + pattern + after).subrange(
                at,
                at + pattern.len(),
            ) != pattern,
    ensures
        replaced(before + pattern + after, pattern, with) == before + with + replaced(
            after,
            pattern,
            with,
        ),
    decreases before.len(),
{
    let text = before + pattern + after;
    if before.len() == 0 {
        assert(text.subrange(0, pattern.len() as int) =~= pattern);
        assert(text.skip(pattern.len() as int) =~= after);
        assert(replaced(text, pattern, with) =~= before + with + replaced(after, pattern, with));
    } else {
        let shorter = before.skip(1);
        let tail = shorter + pattern + after;
        assert(text.skip(1) =~= tail);
        assert(text.subrange(0, 0int + pattern.len()) != pattern);
        assert forall|at: int| 0 <= at < shorter.len() implies #[trigger] tail.subrange(
            at,
            at + pattern.len(),
        ) != pattern by {
            assert(tail.subrange(at, at + pattern.len()) =~= text.subrange(
                at + 1,
                at + 1 + pattern.len(),
            ));
        }
        lemma_replaced_at_first_occurrence(shorter, pattern, after, with);
        assert(replaced(text, pattern, with) =~= before + with + replaced(after, pattern, with));
    }
}

/// Nothing joined is nothing, and a single part joined is the part.
pub proof fn lemma_joined_few(part: Seq<char>, separator: Seq<char>)
    ensures
        joined(Seq::<Seq<char>>::empty(), separator) == Seq::<char>::empty(),
        joined(seq![part], separator) == part,
{
}

/// One more part comes behind the others and a separator.
pub proof fn lemma_joined_one_more(
    parts: Seq<Seq<char>>,
    last: Seq<char>,
    separator: Seq<char>,
)
    requires
        parts.len() > 0,
    ensures
        joined(parts.push(last), separator) == joined(parts, separator) + separator + last,
    decreases parts.len(),
{
    let more = parts.push(last);
    if parts.len() == 1 {
        assert(more.skip(1) =~= seq![last]);
        assert(joined(more.skip(1), separator) == last);
        assert(joined(more, separator) =~= parts[0] + separator + last);
    } else {
        lemma_joined_one_more(parts.skip(1), last, separator);
        assert(more.skip(1) =~= parts.skip(1).push(last));
        assert(joined(more, separator) =~= joined(parts, separator) + separator + last);
    }
}

/// There is at least one piece, and the first one starts the text.
proof fn lemma_first_piece(text: Seq<char>, pattern: Seq<char>)
    ensures
        pieces(text, pattern).len() > 0,
        pieces(text, pattern)[0].is_prefix_of(text),
    decreases text.len(),
{
    if pattern.len() == 0 || text.len() < pattern.len() {
    } else if !occurs_at(text, pattern, 0) {
        lemma_first_piece(text.skip(1), pattern);
        let rest = pieces(text.skip(1), pattern);
        let first = seq![text[0]] + rest[0];
        assert(first =~= text.subrange(0, first.len() as int));
    }
}

/// Joining with a longer first part puts the longer start in front.
proof fn lemma_joined_first(start: Seq<char>, parts: Seq<Seq<char>>, separator: Seq<char>)
    requires
        parts.len() > 0,
    ensures
        joined(seq![start + parts[0]] + parts.skip(1), separator) == start + joined(
            parts,
            separator,
        ),
{
    let longer = seq![start + parts[0]] + parts.skip(1);
    assert(longer.skip(1) =~= parts.skip(1));
}

/// Replacing a pattern is joining the pieces around it with the replacement: every occurrence
/// gives way, and nothing else changes.
pub proof fn lemma_replaced_joins_pieces(text: Seq<char>, pattern: Seq<char>, with: Seq<char>)
    requires
        pattern.len() > 0,
    ensures
        replaced(text, pattern, with) == joined(pieces(text, pattern), with),
    decreases text.len(),
{
    if text.len() < pattern.len() {
    } else if occurs_at(text, pattern, 0) {
        let tail = text.skip(pattern.len() as int);
        lemma_replaced_joins_pieces(tail, pattern, with);
        lemma_first_piece(tail, pattern);
        let all = pieces(text, pattern);
        assert(all.skip(1) =~= pieces(tail, pattern));
    } else {
        let tail = text.skip(1);
        lemma_replaced_joins_pieces(tail, pattern, with);
        lemma_first_piece(tail, pattern);
        lemma_joined_first(seq![text[0]], pieces(tail, pattern), with);
    }
}

/// Putting the pattern back between the pieces gives the text.
pub proof fn lemma_pieces_rebuild_text(text: Seq<char>, pattern: Seq<char>)
    requires
        pattern.len() > 0,
    ensures
        joined(pieces(text, pattern), pattern) == text,
    decreases text.len(),
{
    if text.len() < pattern.len() {
    } else if occurs_at(text, pattern, 0) {
        let tail = text.skip(pattern.len() as int);
        lemma_pieces_rebuild_text(tail, pattern);
        lemma_first_piece(tail, pattern);
        let all = pieces(text, pattern);
        assert(all.skip(1) =~= pieces(tail, pattern));
    } else {
        let tail = text.skip(1);
        lemma_pieces_rebuild_text(tail, pattern);
        lemma_first_piece(tail, pattern);
        lemma_joined_first(seq![text[0]], pieces(tail, pattern), pattern);
    }
}

/// No piece holds the pattern.
pub proof fn lemma_pieces_are_free(text: Seq<char>, pattern: Seq<char>)
    requires
        pattern.len() > 0,
    ensures
        forall|k: int|
            0 <= k < pieces(text, pattern).len() ==> !contains(
                #[trigger] pieces(text, pattern)[k],
                pattern,
            ),
    decreases text.len(),
{
    let all = pieces(text, pattern);
    if text.len() < pattern.len() {
    } else if occurs_at(text, pattern, 0) {
        let tail = text.skip(pattern.len() as int);
        lemma_pieces_are_free(tail, pattern);
        assert forall|k: int| 0 <= k < all.len() implies !contains(#[trigger] all[k], pattern) by {
            if k > 0 {
                assert(all[k] == pieces(tail, pattern)[k - 1]);
            }
        }
    } else {
        let tail = text.skip(1);
        let rest = pieces(tail, pattern);
        lemma_pieces_are_free(tail, pattern);
        lemma_first_piece(tail, pattern);
        lemma_first_piece(text, pattern);
        assert forall|k: int| 0 <= k < all.len() implies !contains(#[trigger] all[k], pattern) by {
            if k == 0 && contains(all[0], pattern) {
                let at = choose|at: int| occurs_at(all[0], pattern, at);
                if at == 0 {
                    assert(text.subrange(0, pattern.len() as int) =~= all[0].subrange(
                        0,
                        pattern.len() as int,
                    ));
                } else {
                    assert(all[0].subrange(at, at + pattern.len()) =~= rest[0].subrange(
                        at - 1,
                        at - 1 + pattern.len(),
                    ));
                    assert(occurs_at(rest[0], pattern, at - 1));
                }
            }
        }
    }
}

/// The last `k` characters of `with` are the first ones of `pattern`.
pub open spec fn ends_as_start(pattern: Seq<char>, with: Seq<char>, k: int) -> bool {
    &&& 0 < k < pattern.len()
    &&& k <= with.len()
    &&& with.skip(with.len() - k) == pattern.take(k)
}

/// The first `k` characters of `with` are the last ones of `pattern`, and not also its first ones.
pub open spec fn starts_as_end(pattern: Seq<char>, with: Seq<char>, k: int) -> bool {
    &&& 0 < k < pattern.len()
    &&& k <= with.len()
    &&& with.take(k) == pattern.skip(pattern.len() - k)
    &&& pattern.take(k) != pattern.skip(pattern.len() - k)
}

/// `with` stands in `pattern` at `at`, with something before and behind it, and `pattern` does not
/// repeat itself from there.
pub open spec fn lies_inside(pattern: Seq<char>, with: Seq<char>, at: int) -> bool {
    &&& 0 < at
    &&& at + with.len() < pattern.len()
    &&& pattern.subrange(at, at + with.len()) == with
    &&& pattern.take(pattern.len() - at) != pattern.skip(at)
}

/// A text can hold `pattern` although `with` was put in place of every occurrence: `with` holds
/// it, or makes one up together with the characters beside it.
pub open spec fn can_arise(pattern: Seq<char>, with: Seq<char>) -> bool {
    ||| contains(with, pattern)
    ||| exists|k: int| ends_as_start(pattern, with, k)
    ||| exists|k: int| starts_as_end(pattern, with, k)
    ||| exists|at: int| lies_inside(pattern, with, at)
}

/// The pieces from the second on are those of what follows the first occurrence, which comes
/// right behind the first piece and has none before it.
proof fn lemma_first_occurrence(text: Seq<char>, pattern: Seq<char>)
    requires
        pattern.len() > 0,
        pieces(text, pattern).len() > 1,
    ensures
        ({
            let at = pieces(text, pattern)[0].len() as int;
            &&& pieces(text, pattern)[0] == text.take(at)
            &&& occurs_at(text, pattern, at)
            &&& pieces(text, pattern).skip(1) == pieces(text.skip(at + pattern.len()), pattern)
            &&& forall|i: int| i < at ==> !occurs_at(text, pattern, i)
        }),
    decreases text.len(),
{
    let all = pieces(text, pattern);
    lemma_first_piece(text, pattern);
    if !occurs_at(text, pattern, 0) {
        let tail = text.skip(1);
        let rest = pieces(tail, pattern);
        lemma_first_piece(tail, pattern);
        lemma_first_occurrence(tail, pattern);
        let at = rest[0].len() as int;
        assert(text.subrange(at + 1, at + 1 + pattern.len()) =~= tail.subrange(
            at,
            at + pattern.len(),
        ));
        assert(text.skip(at + 1 + pattern.len()) =~= tail.skip(at + pattern.len()));
        assert forall|i: int| i < at + 1 implies !occurs_at(text, pattern, i) by {
            if 0 < i && occurs_at(text, pattern, i) {
                assert(tail.subrange(i - 1, i - 1 + pattern.len()) =~= text.subrange(
                    i,
                    i + pattern.len(),
                ));
                assert(occurs_at(tail, pattern, i - 1));
            }
        }
    }
}

/// Once a pattern gave way to a text in which it cannot arise again, no occurrence is left.
pub proof fn lemma_replaced_leaves_none(text: Seq<char>, pattern: Seq<char>, with: Seq<char>)
    requires
        pattern.len() > 0,
        !can_arise(pattern, with),
    ensures
        !contains(replaced(text, pattern, with), pattern),
    decreases text.len(),
{
    let all = pieces(text, pattern);
    let whole = replaced(text, pattern, with);
    let p = pattern.len() as int;
    let w = with.len() as int;
    lemma_replaced_joins_pieces(text, pattern, with);
    lemma_pieces_are_free(text, pattern);
    lemma_first_piece(text, pattern);
    if all.len() > 1 {
        lemma_first_occurrence(text, pattern);
        let first = all[0];
        let m = first.len() as int;
        let tail = text.skip(m + p);
        lemma_replaced_joins_pieces(tail, pattern, with);
        lemma_replaced_leaves_none(tail, pattern, with);
        let rest = replaced(tail, pattern, with);
        if contains(whole, pattern) {
            let at = choose|at: int| occurs_at(whole, pattern, at);
            let end = at + p;
            let window = whole.subrange(at, end);
            if at >= m + w {
                assert(window =~= rest.subrange(at - m - w, end - m - w));
                assert(occurs_at(rest, pattern, at - m - w));
            } else if at >= m {
                if end <= m + w {
                    assert(window =~= with.subrange(at - m, end - m));
                    assert(occurs_at(with, pattern, at - m));
                } else {
                    let k = m + w - at;
                    assert(with.skip(w - k) =~= window.take(k));
                    assert(ends_as_start(pattern, with, k));
                }
            } else if end <= m {
                assert(window =~= text.subrange(at, end));
                assert(occurs_at(text, pattern, at));
            } else {
                // The occurrence starts in the first piece, so the text has none there.
                let before = m - at;
                assert(window.take(before) =~= text.subrange(at, m));
                if end <= m + w {
                    let k = end - m;
                    assert(with.take(k) =~= window.skip(p - k));
                    if pattern.take(k) == pattern.skip(p - k) {
                        assert(text.subrange(m, end) =~= text.subrange(m, m + p).take(k));
                        assert(text.subrange(at, end) =~= text.subrange(at, m) + text.subrange(
                            m,
                            end,
                        ));
                        assert(pattern =~= pattern.take(before) + pattern.skip(p - k));
                        assert(occurs_at(text, pattern, at));
                    }
                    assert(starts_as_end(pattern, with, k));
                } else {
                    assert(with =~= window.subrange(before, before + w));
                    if pattern.take(p - before) == pattern.skip(before) {
                        assert(text.subrange(m, end) =~= text.subrange(m, m + p).take(p - before));
                        assert(text.subrange(at, end) =~= text.subrange(at, m) + text.subrange(
                            m,
                            end,
                        ));
                        assert(pattern =~= pattern.take(before) + pattern.skip(before));
                        assert(occurs_at(text, pattern, at));
                    }
                    assert(lies_inside(pattern, with, before));
                }
            }
        }
    }
}

proof fn lemma_pieces_of_front(part: Seq<char>, separator: char, rest: Seq<char>)
    requires
        !part.contains(separator),
    ensures
        pieces(part + seq![separator] + rest, seq![separator]) == seq![part] + pieces(
            rest,
            seq![separator],
        ),
    decreases part.len(),
{
    let mark = seq![separator];
    let text = part + mark + rest;
    assert(mark[0] == separator);
    if part.len() == 0 {
        assert(text.subrange(0, 1) =~= mark);
        assert(text.skip(1) =~= rest);
        assert(part =~= Seq::<char>::empty());
    } else {
        let shorter = part.skip(1);
        assert(forall|k: int| 0 <= k < shorter.len() ==> shorter[k] != separator);
        lemma_pieces_of_front(shorter, separator, rest);
        assert(text.skip(1) =~= shorter + mark + rest);
        let tail = pieces(text.skip(1), mark);
        assert(seq![text[0]] + tail[0] =~= part);
    }
}

proof fn lemma_pieces_of_one(part: Seq<char>, separator: char)
    requires
        !part.contains(separator),
    ensures
        pieces(part, seq![separator]) == seq![part],
    decreases part.len(),
{
    let mark = seq![separator];
    if part.len() > 0 {
        assert(mark[0] == separator);
        let shorter = part.skip(1);
        assert(forall|k: int| 0 <= k < shorter.len() ==> shorter[k] != separator);
        lemma_pieces_of_one(shorter, separator);
        assert(seq![part[0]] + shorter =~= part);
    }
}

/// Parts that do not hold the separator come back when what they were joined to is taken apart.
pub proof fn lemma_pieces_undo_joined(parts: Seq<Seq<char>>, separator: char)
    requires
        parts.len() > 0,
        forall|k: int| 0 <= k < parts.len() ==> !(#[trigger] parts[k]).contains(separator),
    ensures
        pieces(joined(parts, seq![separator]), seq![separator]) == parts,
    decreases parts.len(),
{
    let mark = seq![separator];
    if parts.len() == 1 {
        lemma_pieces_of_one(parts[0], separator);
    } else {
        let rest = parts.skip(1);
        lemma_pieces_undo_joined(rest, separator);
        lemma_pieces_of_front(parts[0], separator, joined(rest, mark));
    }
}

/// Replacing one character by one other changes each character by itself.
pub proof fn lemma_replaced_char(text: Seq<char>, from: char, to: char)
    ensures
        replaced(text, seq![from], seq![to]) == text.map_values(
            |c: char|
                if c == from {
                    to
                } else {
                    c
                },
        ),
    decreases text.len(),
{
    if text.len() > 0 {
        lemma_replaced_char(text.skip(1), from, to);
        assert(occurs_at(text, seq![from], 0) <==> text[0] == from) by {
            assert(text.subrange(0, 1) =~= seq![text[0]]);
            assert(seq![from][0] == from);
        }
    }
}

/// The views of a list of strings.
pub open spec fn views(parts: Seq<String>) -> Seq<Seq<char>> {
    parts.map_values(|part: String| part@)
}

/// The views of a list are those of its strings, one for one.
pub proof fn lemma_views(parts: Seq<String>)
    ensures
        views(parts).len() == parts.len(),
        forall|k: int| 0 <= k < parts.len() ==> #[trigger] views(parts)[k] == parts[k]@,
{
}

/// `parts` one after another with `separator` between each two of them.
pub fn join_text(parts: &Vec<String>, separator: &str) -> (result: String)
    ensures
        result@ == joined(views(parts@), separator@),
{
    let ghost all = views(parts@);
    let mut result = String::new();
    if parts.len() == 0 {
        return result;
    }
    result.append(parts[0].as_str());
    let mut i: usize = 1;
    while i < parts.len()
        invariant
            1 <= i <= parts@.len(),
            all == views(parts@),
            joined(all, separator@) == result@ + (if i < parts@.len() {
                separator@ + joined(all.skip(i as int), separator@)
            } else {
                seq![]
            }),
        decreases parts@.len() - i,
    {
        result.append(separator);
        result.append(parts[i].as_str());
        assert(all.skip(i as int).skip(1) =~= all.skip(i + 1));
        i = i + 1;
        assert(joined(all, separator@) =~= result@ + (if i < parts@.len() {
            separator@ + joined(all.skip(i as int), separator@)
        } else {
            seq![]
        }));
    }
    result
}

/// The ten digits, each at its own value.
pub open spec fn digits() -> Seq<char> {
    seq!['0', '1', '2', '3', '4', '5', '6', '7', '8', '9']
}

/// `n` in decimal, without leading zeros.
pub open spec fn decimal_nat(n: nat) -> Seq<char>
    decreases n,
{
    if n < 10 {
        seq![digits()[n as int]]
    } else {
        decimal_nat(n / 10).push(digits()[(n % 10) as int])
    }
}

/// `n` in decimal, with a minus sign in front where it is negative.
pub open spec fn decimal(n: int) -> Seq<char> {
    if n < 0 {
        seq!['-'] + decimal_nat((-n) as nat)
    } else {
        decimal_nat(n as nat)
    }
}

/// A number below ten is written as the one digit that stands as far behind `0` as the number is
/// large.
pub proof fn lemma_decimal_of_digit(d: int)
    requires
        0 <= d < 10,
    ensures
        decimal(d).len() == 1,
        decimal(d)[0] as int == '0' as int + d,
{
}

/// One more digit is written behind the others.
pub proof fn lemma_decimal_one_more_digit(n: int, d: int)
    requires
        n > 0,
        0 <= d < 10,
    ensures
        decimal(10 * n + d) == decimal(n) + decimal(d),
{
    assert((10 * n + d) / 10 == n && (10 * n + d) % 10 == d);
    assert(decimal(10 * n + d) =~= decimal(n) + decimal(d));
}

/// A negative number is written as its magnitude behind a minus sign.
pub proof fn lemma_decimal_of_negative(n: int)
    requires
        n > 0,
    ensures
        decimal(-n) == seq!['-'] + decimal(n),
{
}

fn append_decimal(text: &mut String, n: u32)
    ensures
        final(text)@ == old(text)@ + decimal_nat(n as nat),
    decreases n,
{
    if n >= 10 {
        append_decimal(text, n / 10);
    }
    let d: usize = (n % 10) as usize;
    proof {
        reveal_strlit("0123456789");
    }
    text.append("0123456789".substring_char(d, d + 1));
}

/// Writes `n` in decimal at the end of `text`.
pub fn append_number(text: &mut String, n: i32)
    ensures
        final(text)@ == old(text)@ + decimal(n as int),
{
    if n < 0 {
        proof {
            reveal_strlit("-");
        }
        text.append("-");
        let magnitude: i64 = -(n as i64);
        append_decimal(text, magnitude as u32);
    } else {
        append_decimal(text, n as u32);
    }
}

} // verus!
