//! Splitting text into pieces (`str::split`, `str::lines`, `str::split_whitespace`)
//! and joining pieces back together.
use vstd::prelude::*;

use crate::text::{chars_of, is_space, push_all, space, string_of_range};

verus! {

/// The character sequences of a list of strings.
pub open spec fn views(v: Seq<String>) -> Seq<Seq<char>> {
    v.map_values(|x: String| x@)
}

/// Pieces of `s` between occurrences of `c`; `cur` is the piece read so far.
pub open spec fn split_from(s: Seq<char>, c: char, cur: Seq<char>) -> Seq<Seq<char>>
    decreases s.len(),
{
    if s.len() == 0 {
        seq![cur]
    } else if s[0] == c {
        seq![cur] + split_from(s.drop_first(), c, Seq::empty())
    } else {
        split_from(s.drop_first(), c, cur.push(s[0]))
    }
}

/// What `str::split(c)` yields for `s`.
pub open spec fn split(s: Seq<char>, c: char) -> Seq<Seq<char>> {
    split_from(s, c, Seq::empty())
}

/// A line without its carriage return, if it ends in one.
pub open spec fn strip_cr(x: Seq<char>) -> Seq<char> {
    if x.len() > 0 && x.last() == '\r' {
        x.drop_last()
    } else {
        x
    }
}

/// Lines of `s`; `cur` is the line read so far.
pub open spec fn lines_from(s: Seq<char>, cur: Seq<char>) -> Seq<Seq<char>>
    decreases s.len(),
{
    if s.len() == 0 {
        if cur.len() == 0 {
            Seq::empty()
        } else {
            seq![cur]
        }
    } else if s[0] == '\n' {
        seq![strip_cr(cur)] + lines_from(s.drop_first(), Seq::empty())
    } else {
        lines_from(s.drop_first(), cur.push(s[0]))
    }
}

/// What `str::lines` yields for `s`: split at `\n` or `\r\n`, no final empty line.
pub open spec fn lines(s: Seq<char>) -> Seq<Seq<char>> {
    lines_from(s, Seq::empty())
}

/// Words of `s`; `cur` is the word read so far.
pub open spec fn words_from(s: Seq<char>, cur: Seq<char>) -> Seq<Seq<char>>
    decreases s.len(),
{
    if s.len() == 0 {
        if cur.len() == 0 {
            Seq::empty()
        } else {
            seq![cur]
        }
    } else if is_space(s[0]) {
        if cur.len() == 0 {
            words_from(s.drop_first(), Seq::empty())
        } else {
            seq![cur] + words_from(s.drop_first(), Seq::empty())
        }
    } else {
        words_from(s.drop_first(), cur.push(s[0]))
    }
}

/// What `str::split_whitespace` yields for `s`.
pub open spec fn words(s: Seq<char>) -> Seq<Seq<char>> {
    words_from(s, Seq::empty())
}

/// `parts.join(sep)`.
pub open spec fn join(parts: Seq<Seq<char>>, sep: Seq<char>) -> Seq<char>
    decreases parts.len(),
{
    if parts.len() == 0 {
        Seq::empty()
    } else if parts.len() == 1 {
        parts[0]
    } else {
        join(parts.drop_last(), sep) + sep + parts.last()
    }
}

/// `str::split` always yields at least one piece.
pub proof fn lemma_split_nonempty(s: Seq<char>, c: char, cur: Seq<char>)
    ensures
        split_from(s, c, cur).len() >= 1,
    decreases s.len(),
{
    if s.len() > 0 {
        if s[0] == c {
            lemma_split_nonempty(s.drop_first(), c, Seq::empty());
        } else {
            lemma_split_nonempty(s.drop_first(), c, cur.push(s[0]));
        }
    }
}

/// No piece that `str::split(c)` yields holds `c`.
pub proof fn lemma_split_pieces_exclude(s: Seq<char>, c: char, cur: Seq<char>)
    requires
        !cur.contains(c),
    ensures
        forall|i: int|
            0 <= i < split_from(s, c, cur).len() ==> !(#[trigger] split_from(s, c, cur)[i]).contains(c),
    decreases s.len(),
{
    if s.len() > 0 {
        if s[0] == c {
            lemma_split_pieces_exclude(s.drop_first(), c, Seq::empty());
            let rest = split_from(s.drop_first(), c, Seq::empty());
            assert forall|i: int| 0 <= i < split_from(s, c, cur).len() implies !(
            #[trigger] split_from(s, c, cur)[i]).contains(c) by {
                if i > 0 {
                    assert(split_from(s, c, cur)[i] == rest[i - 1]);
                } else {
                    assert(split_from(s, c, cur)[i] == cur);
                }
            }
        } else {
            assert(!cur.push(s[0]).contains(c)) by {
                if cur.push(s[0]).contains(c) {
                    let k = choose|k: int| 0 <= k < cur.push(s[0]).len() && cur.push(s[0])[k] == c;
                    if k < cur.len() {
                        assert(cur[k] == c);
                    }
                }
            }
            lemma_split_pieces_exclude(s.drop_first(), c, cur.push(s[0]));
            let rest = split_from(s.drop_first(), c, cur.push(s[0]));
            assert(split_from(s, c, cur) == rest);
            assert forall|i: int| 0 <= i < split_from(s, c, cur).len() implies !(
            #[trigger] split_from(s, c, cur)[i]).contains(c) by {
                assert(split_from(s, c, cur)[i] == rest[i]);
            }
        }
    } else {
        assert(split_from(s, c, cur) == seq![cur]);
        assert forall|i: int| 0 <= i < split_from(s, c, cur).len() implies !(
        #[trigger] split_from(s, c, cur)[i]).contains(c) by {
            assert(split_from(s, c, cur)[i] == cur);
        }
    }
}

proof fn lemma_views_push(v: Seq<String>, x: String)
    ensures
        views(v.push(x)) == views(v).push(x@),
{
    assert(views(v.push(x)) =~= views(v).push(x@));
}

/// `str::split(c)`, collected.
pub fn split_char(s: &str, c: char) -> (r: Vec<String>)
    ensures
        views(r@) == split(s@, c),
{
    let v = chars_of(s);
    let mut parts: Vec<String> = Vec::new();
    let mut cur = String::new();
    let mut i: usize = 0;
    assert(v@.skip(0) == v@);
    while i < v.len()
        invariant
            i <= v.len(),
            v@ == s@,
            split(s@, c) == views(parts@) + split_from(v@.skip(i as int), c, cur@),
        decreases v.len() - i,
    {
        let ghost rest = v@.skip(i as int);
        assert(rest.drop_first() == v@.skip(i + 1));
        if v[i] == c {
            proof {
                lemma_views_push(parts@, cur);
            }
            let done = cur;
            parts.push(done);
            cur = String::new();
            assert(views(parts@) + split_from(v@.skip(i + 1), c, cur@) =~= views(parts@).drop_last()
                + split_from(rest, c, done@));
        } else {
            cur.push(v[i]);
        }
        i += 1;
    }
    proof {
        lemma_views_push(parts@, cur);
    }
    parts.push(cur);
    assert(views(parts@) =~= split(s@, c));
    parts
}

/// `str::lines`, collected.
pub fn lines_of(s: &str) -> (r: Vec<String>)
    ensures
        views(r@) == lines(s@),
{
    let v = chars_of(s);
    let mut parts: Vec<String> = Vec::new();
    let mut cur = String::new();
    let mut i: usize = 0;
    assert(v@.skip(0) == v@);
    while i < v.len()
        invariant
            i <= v.len(),
            v@ == s@,
            lines(s@) == views(parts@) + lines_from(v@.skip(i as int), cur@),
        decreases v.len() - i,
    {
        let ghost rest = v@.skip(i as int);
        assert(rest.drop_first() == v@.skip(i + 1));
        if v[i] == '\n' {
            let ghost before = cur@;
            let cv = chars_of(cur.as_str());
            let mut end = cv.len();
            if end > 0 && cv[end - 1] == '\r' {
                end -= 1;
                assert(cv@.subrange(0, end as int) == cv@.drop_last());
            } else {
                assert(cv@.subrange(0, end as int) == cv@);
            }
            let line = string_of_range(&cv, 0, end);
            assert(line@ == strip_cr(before));
            proof {
                lemma_views_push(parts@, line);
            }
            parts.push(line);
            cur = String::new();
            assert(views(parts@) + lines_from(v@.skip(i + 1), cur@) =~= views(parts@).drop_last()
                + lines_from(rest, before));
        } else {
            cur.push(v[i]);
        }
        i += 1;
    }
    if !cur.as_str().is_empty() {
        proof {
            lemma_views_push(parts@, cur);
        }
        parts.push(cur);
        assert(views(parts@) =~= lines(s@));
    } else {
        assert(views(parts@) =~= lines(s@));
    }
    parts
}

/// `str::split_whitespace`, collected.
pub fn words_of(s: &str) -> (r: Vec<String>)
    ensures
        views(r@) == words(s@),
{
    let v = chars_of(s);
    let mut parts: Vec<String> = Vec::new();
    let mut cur = String::new();
    let mut i: usize = 0;
    assert(v@.skip(0) == v@);
    while i < v.len()
        invariant
            i <= v.len(),
            v@ == s@,
            words(s@) == views(parts@) + words_from(v@.skip(i as int), cur@),
        decreases v.len() - i,
    {
        let ghost rest = v@.skip(i as int);
        assert(rest.drop_first() == v@.skip(i + 1));
        if space(v[i]) {
            if !cur.as_str().is_empty() {
                proof {
                    lemma_views_push(parts@, cur);
                }
                let done = cur;
                parts.push(done);
                cur = String::new();
                assert(views(parts@) + words_from(v@.skip(i + 1), cur@) =~= views(
                    parts@,
                ).drop_last() + words_from(rest, done@));
            } else {
                assert(cur@ =~= Seq::<char>::empty());
                assert(words_from(rest, cur@) == words_from(v@.skip(i + 1), cur@));
            }
        } else {
            cur.push(v[i]);
        }
        i += 1;
    }
    if !cur.as_str().is_empty() {
        proof {
            lemma_views_push(parts@, cur);
        }
        parts.push(cur);
        assert(views(parts@) =~= words(s@));
    } else {
        assert(views(parts@) =~= words(s@));
    }
    parts
}

/// `parts.join(sep)`.
pub fn join_with(parts: &Vec<String>, sep: &str) -> (r: String)
    ensures
        r@ == join(views(parts@), sep@),
{
    let mut r = String::new();
    let mut i: usize = 0;
    while i < parts.len()
        invariant
            i <= parts.len(),
            r@ == join(views(parts@.take(i as int)), sep@),
        decreases parts.len() - i,
    {
        let ghost before = r@;
        if i > 0 {
            push_all(&mut r, sep);
        }
        push_all(&mut r, parts[i].as_str());
        i += 1;
        proof {
            let t = views(parts@.take(i as int));
            assert(t.drop_last() =~= views(parts@.take(i - 1)));
            assert(t.last() == parts@[i - 1]@);
            if i == 1 {
                assert(views(parts@.take(0)) =~= Seq::<Seq<char>>::empty());
                assert(r@ =~= t[0]);
            }
        }
    }
    assert(parts@.take(parts.len() as int) == parts@);
    r
}

/// The first piece starts with the text read so far, when there is any.
pub proof fn lemma_split_first_piece(s: Seq<char>, c: char, cur: Seq<char>)
    requires
        cur.len() > 0,
    ensures
        split_from(s, c, cur)[0].len() > 0,
        split_from(s, c, cur)[0][0] == cur[0],
    decreases s.len(),
{
    lemma_split_nonempty(s, c, cur);
    if s.len() > 0 && s[0] != c {
        lemma_split_first_piece(s.drop_first(), c, cur.push(s[0]));
    }
}

/// A non-empty last piece ends where the text ends (or is the text read so
/// far, when nothing is left).
pub proof fn lemma_split_last_piece(s: Seq<char>, c: char, cur: Seq<char>)
    ensures
        split_from(s, c, cur).len() >= 1,
        split_from(s, c, cur).last().len() > 0 ==> (s.len() > 0 && split_from(s, c, cur).last().last()
            == s.last()) || (s.len() == 0 && split_from(s, c, cur).last() == cur),
    decreases s.len(),
{
    lemma_split_nonempty(s, c, cur);
    if s.len() > 0 {
        let t = s.drop_first();
        if s[0] == c {
            lemma_split_last_piece(t, c, Seq::empty());
            let rest = split_from(t, c, Seq::empty());
            assert(split_from(s, c, cur).last() == rest.last());
        } else {
            lemma_split_last_piece(t, c, cur.push(s[0]));
        }
        if t.len() > 0 {
            assert(t.last() == s.last());
        }
    }
}

} // verus!
