//! Character-level helpers shared by the parsers and formatters of the library.

use vstd::prelude::*;
use vstd::std_specs::iter::IteratorSpec;

verus! {

/// `String::push` from std: appends the character `c` at the end of `s`.
#[verifier::external_body]
pub(crate) fn push_char(s: &mut String, c: char)
    ensures
        final(s)@ == old(s)@.push(c),
{
    s.push(c);
}

/// The characters of `s`, in order.
pub fn chars_of(s: &str) -> (v: Vec<char>)
    ensures
        v@ == s@,
{
    let mut v: Vec<char> = Vec::new();
    let mut it = s.chars();
    let ghost n = s@.len();
    loop
        invariant
            it.remaining() == s@.skip(v@.len() as int),
            v@ == s@.take(v@.len() as int),
            v@.len() <= n,
            n == s@.len(),
        ensures
            v@ == s@,
        decreases n - v@.len(),
    {
        match it.next() {
            Some(c) => {
                v.push(c);
            },
            None => {
                break;
            },
        }
    }
    v
}

/// Appends the characters `v[start..end]` to `s`.
pub fn push_range(s: &mut String, v: &Vec<char>, start: usize, end: usize)
    requires
        start <= end <= v@.len(),
    ensures
        final(s)@ == old(s)@ + v@.subrange(start as int, end as int),
{
    let mut i = start;
    while i < end
        invariant
            start <= i <= end <= v@.len(),
            s@ == old(s)@ + v@.subrange(start as int, i as int),
        decreases end - i,
    {
        push_char(s, v[i]);
        assert(v@.subrange(start as int, i + 1) =~= v@.subrange(start as int, i as int).push(v@[i as int]));
        i = i + 1;
    }
}

/// The string made of the characters `v[start..end]`.
pub fn string_of_range(v: &Vec<char>, start: usize, end: usize) -> (s: String)
    requires
        start <= end <= v@.len(),
    ensures
        s@ == v@.subrange(start as int, end as int),
{
    let mut s = String::new();
    push_range(&mut s, v, start, end);
    assert(s@ =~= v@.subrange(start as int, end as int));
    s
}

/// The Unicode `White_Space` characters, which `char::is_whitespace` recognizes.
pub open spec fn is_whitespace(c: char) -> bool {
    ||| '\t' <= c && c <= '\r'
    ||| c == ' '
    ||| c == '\u{85}'
    ||| c == '\u{a0}'
    ||| c == '\u{1680}'
    ||| '\u{2000}' <= c && c <= '\u{200a}'
    ||| c == '\u{2028}'
    ||| c == '\u{2029}'
    ||| c == '\u{202f}'
    ||| c == '\u{205f}'
    ||| c == '\u{3000}'
}

/// `s` without its leading whitespace.
pub open spec fn trim_start(s: Seq<char>) -> Seq<char>
    decreases s.len(),
{
    if s.len() > 0 && is_whitespace(s[0]) {
        trim_start(s.drop_first())
    } else {
        s
    }
}

/// `s` without its trailing whitespace.
pub open spec fn trim_end(s: Seq<char>) -> Seq<char>
    decreases s.len(),
{
    if s.len() > 0 && is_whitespace(s.last()) {
        trim_end(s.drop_last())
    } else {
        s
    }
}

/// `s` without leading and trailing whitespace, as `str::trim` gives it.
pub open spec fn trim(s: Seq<char>) -> Seq<char> {
    trim_end(trim_start(s))
}

/// The pieces of `s` between the occurrences of `sep`, as `str::split` gives them: one
/// more piece than there are separators, empty pieces included.
pub open spec fn split(s: Seq<char>, sep: char) -> Seq<Seq<char>>
    decreases s.len(),
{
    if s.len() == 0 {
        seq![Seq::<char>::empty()]
    } else {
        let rest = split(s.drop_last(), sep);
        if s.last() == sep {
            rest.push(Seq::<char>::empty())
        } else {
            rest.update(rest.len() - 1, rest.last().push(s.last()))
        }
    }
}

/// A line without the carriage return that ends it, if any.
pub open spec fn strip_cr(line: Seq<char>) -> Seq<char> {
    if line.len() > 0 && line.last() == '\r' {
        line.drop_last()
    } else {
        line
    }
}

/// The lines of `s`, as `str::lines` gives them: split at `\n`, a `\r` before the `\n`
/// dropped, and no empty line after a final `\n`.
pub open spec fn lines(s: Seq<char>) -> Seq<Seq<char>> {
    let parts = split(s, '\n');
    let ended = parts.drop_last().map_values(|l: Seq<char>| strip_cr(l));
    if parts.last().len() == 0 {
        ended
    } else {
        ended.push(parts.last())
    }
}

/// The views of a sequence of strings.
pub open spec fn string_views(v: Seq<String>) -> Seq<Seq<char>> {
    v.map_values(|s: String| s@)
}

/// The views of a sequence of character vectors.
pub open spec fn char_vec_views(v: Seq<Vec<char>>) -> Seq<Seq<char>> {
    v.map_values(|x: Vec<char>| x@)
}

/// `char::is_whitespace`.
pub fn char_is_whitespace(c: char) -> (r: bool)
    ensures
        r == is_whitespace(c),
{
    ('\t' <= c && c <= '\r') || c == ' ' || c == '\u{85}' || c == '\u{a0}' || c == '\u{1680}'
        || ('\u{2000}' <= c && c <= '\u{200a}') || c == '\u{2028}' || c == '\u{2029}' || c
        == '\u{202f}' || c == '\u{205f}' || c == '\u{3000}'
}

/// Leading whitespace may be dropped before trimming the start.
proof fn lemma_trim_start_skip(s: Seq<char>, k: int)
    requires
        0 <= k <= s.len(),
        forall|i: int| 0 <= i < k ==> is_whitespace(#[trigger] s[i]),
    ensures
        trim_start(s) == trim_start(s.subrange(k, s.len() as int)),
    decreases k,
{
    if k == 0 {
        assert(s.subrange(0, s.len() as int) =~= s);
    } else {
        assert(s.drop_first().subrange(k - 1, s.drop_first().len() as int) =~= s.subrange(
            k,
            s.len() as int,
        ));
        assert forall|i: int| 0 <= i < k - 1 implies is_whitespace(#[trigger] s.drop_first()[i]) by {
            assert(s.drop_first()[i] == s[i + 1]);
        }
        lemma_trim_start_skip(s.drop_first(), k - 1);
    }
}

/// Trailing whitespace may be dropped before trimming the end.
proof fn lemma_trim_end_skip(s: Seq<char>, e: int)
    requires
        0 <= e <= s.len(),
        forall|i: int| e <= i < s.len() ==> is_whitespace(#[trigger] s[i]),
    ensures
        trim_end(s) == trim_end(s.subrange(0, e)),
    decreases s.len() - e,
{
    if e == s.len() {
        assert(s.subrange(0, e) =~= s);
    } else {
        assert(s.drop_last().subrange(0, e) =~= s.subrange(0, e));
        assert forall|i: int| e <= i < s.drop_last().len() implies is_whitespace(
            #[trigger] s.drop_last()[i],
        ) by {
            assert(s.drop_last()[i] == s[i]);
        }
        lemma_trim_end_skip(s.drop_last(), e);
    }
}

/// The bounds of `v` once trimmed: `trim(v) == v[start..end]`.
pub fn trim_bounds(v: &Vec<char>) -> (r: (usize, usize))
    ensures
        r.0 <= r.1 <= v@.len(),
        trim(v@) == v@.subrange(r.0 as int, r.1 as int),
{
    let n = v.len();
    let mut st: usize = 0;
    while st < n && char_is_whitespace(v[st])
        invariant
            st <= n == v@.len(),
            forall|i: int| 0 <= i < st ==> is_whitespace(#[trigger] v@[i]),
        decreases n - st,
    {
        st = st + 1;
    }
    let ghost t = v@.subrange(st as int, n as int);
    proof {
        lemma_trim_start_skip(v@, st as int);
        if st < n {
            assert(t[0] == v@[st as int]);
        }
        assert(trim_start(t) == t);
    }
    let mut en = n;
    while en > st && char_is_whitespace(v[en - 1])
        invariant
            st <= en <= n == v@.len(),
            forall|i: int| en <= i < n ==> is_whitespace(#[trigger] v@[i]),
        decreases en - st,
    {
        en = en - 1;
    }
    proof {
        assert forall|i: int| en - st <= i < t.len() implies is_whitespace(#[trigger] t[i]) by {
            assert(t[i] == v@[st + i]);
        }
        lemma_trim_end_skip(t, en - st);
        let u = t.subrange(0, en - st);
        assert(u =~= v@.subrange(st as int, en as int));
        if en > st {
            assert(u.last() == v@[en - 1]);
        }
        assert(trim_end(u) == u);
    }
    (st, en)
}

/// The pieces of `v` between the occurrences of `sep`.
pub fn split_chars(v: &Vec<char>, sep: char) -> (r: Vec<Vec<char>>)
    ensures
        char_vec_views(r@) == split(v@, sep),
{
    let n = v.len();
    let mut done: Vec<Vec<char>> = Vec::new();
    let mut cur: Vec<char> = Vec::new();
    let mut i: usize = 0;
    assert(v@.take(0) =~= Seq::<char>::empty());
    assert(char_vec_views(done@).push(cur@) =~= split(v@.take(0), sep));
    while i < n
        invariant
            i <= n == v@.len(),
            char_vec_views(done@).push(cur@) == split(v@.take(i as int), sep),
        decreases n - i,
    {
        let c = v[i];
        let ghost before = split(v@.take(i as int), sep);
        assert(v@.take(i + 1).drop_last() =~= v@.take(i as int));
        if c == sep {
            done.push(cur);
            cur = Vec::new();
            assert(char_vec_views(done@).push(cur@) =~= before.push(Seq::<char>::empty()));
        } else {
            cur.push(c);
            assert(char_vec_views(done@).push(cur@) =~= before.update(
                before.len() - 1,
                before.last().push(c),
            ));
        }
        i = i + 1;
    }
    done.push(cur);
    assert(v@.take(n as int) =~= v@);
    assert(char_vec_views(done@) =~= split(v@, sep));
    done
}

/// A copy of `v[start..end]`.
pub fn copy_range(v: &Vec<char>, start: usize, end: usize) -> (r: Vec<char>)
    requires
        start <= end <= v@.len(),
    ensures
        r@ == v@.subrange(start as int, end as int),
{
    let mut r: Vec<char> = Vec::new();
    let mut i = start;
    while i < end
        invariant
            start <= i <= end <= v@.len(),
            r@ == v@.subrange(start as int, i as int),
        decreases end - i,
    {
        r.push(v[i]);
        assert(r@ =~= v@.subrange(start as int, i + 1));
        i = i + 1;
    }
    r
}

/// The lines of `v`, as `str::lines` gives them.
pub fn lines_of(v: &Vec<char>) -> (r: Vec<Vec<char>>)
    ensures
        char_vec_views(r@) == lines(v@),
{
    let parts = split_chars(v, '\n');
    let ghost pv = split(v@, '\n');
    proof {
        reveal_with_fuel(split, 1);
        assert(pv.len() >= 1) by {
            lemma_split_nonempty(v@, '\n');
        }
        assert(parts@.len() == pv.len());
    }
    let count = parts.len();
    let mut r: Vec<Vec<char>> = Vec::new();
    let mut i: usize = 0;
    while i + 1 < count
        invariant
            count == parts@.len() == pv.len() >= 1,
            char_vec_views(parts@) == pv,
            i + 1 <= count,
            char_vec_views(r@) == pv.take(i as int).map_values(|l: Seq<char>| strip_cr(l)),
        decreases count - i,
    {
        let part = &parts[i];
        assert(part@ == pv[i as int]);
        let len = part.len();
        let line = if len > 0 && part[len - 1] == '\r' {
            copy_range(part, 0, len - 1)
        } else {
            copy_range(part, 0, len)
        };
        proof {
            if len > 0 && part@[len - 1] == '\r' {
                assert(part@.drop_last() =~= part@.subrange(0, len - 1));
            } else {
                assert(part@ =~= part@.subrange(0, len as int));
            }
        }
        assert(line@ == strip_cr(pv[i as int]));
        let ghost old_rv = r@;
        assert(old_rv.len() == i) by {
            assert(char_vec_views(old_rv).len() == old_rv.len());
            assert(pv.take(i as int).map_values(|l: Seq<char>| strip_cr(l)).len() == i);
        }
        r.push(line);
        proof {
            let old_r = char_vec_views(old_rv);
            let target = pv.take(i + 1).map_values(|l: Seq<char>| strip_cr(l));
            assert(target[i as int] == strip_cr(pv[i as int]));
            assert forall|k: int| 0 <= k < i implies char_vec_views(r@)[k] == target[k] by {
                assert(pv.take(i as int)[k] == pv[k]);
                assert(r@[k] == old_rv[k]);
                assert(old_r[k] == old_rv[k]@);
            }
            assert(char_vec_views(r@)[i as int] == line@);
            assert(char_vec_views(r@) =~= target);
        }
        i = i + 1;
    }
    assert(pv.take(i as int) =~= pv.drop_last());
    let last = &parts[count - 1];
    assert(last@ == pv.last());
    if last.len() > 0 {
        let line = copy_range(last, 0, last.len());
        assert(line@ =~= last@);
        r.push(line);
        assert(char_vec_views(r@) =~= lines(v@));
    } else {
        assert(char_vec_views(r@) =~= lines(v@));
    }
    r
}

/// `split` always gives at least one piece.
pub proof fn lemma_split_nonempty(s: Seq<char>, sep: char)
    ensures
        split(s, sep).len() >= 1,
    decreases s.len(),
{
    if s.len() > 0 {
        lemma_split_nonempty(s.drop_last(), sep);
    }
}

/// Every character of `p` occurs in `s`.
pub open spec fn chars_within(p: Seq<char>, s: Seq<char>) -> bool {
    forall|k: int| 0 <= k < p.len() ==> s.contains(#[trigger] p[k])
}

/// A slice of `s` holds only characters of `s`.
pub proof fn lemma_subrange_within(s: Seq<char>, a: int, b: int)
    requires
        0 <= a <= b <= s.len(),
    ensures
        chars_within(s.subrange(a, b), s),
{
    assert forall|k: int| 0 <= k < b - a implies s.contains(#[trigger] s.subrange(a, b)[k]) by {
        assert(s[a + k] == s.subrange(a, b)[k]);
    }
}

/// `chars_within` is transitive.
pub proof fn lemma_within_trans(p: Seq<char>, q: Seq<char>, s: Seq<char>)
    requires
        chars_within(p, q),
        chars_within(q, s),
    ensures
        chars_within(p, s),
{
    assert forall|k: int| 0 <= k < p.len() implies s.contains(#[trigger] p[k]) by {
        assert(q.contains(p[k]));
        let m = choose|m: int| 0 <= m < q.len() && q[m] == p[k];
        assert(s.contains(q[m]));
    }
}

/// The pieces of a split hold no separator and only characters of the text split.
pub proof fn lemma_split_pieces(s: Seq<char>, sep: char)
    ensures
        forall|j: int|
            0 <= j < split(s, sep).len() ==> !(#[trigger] split(s, sep)[j]).contains(sep)
                && chars_within(split(s, sep)[j], s),
    decreases s.len(),
{
    lemma_split_nonempty(s, sep);
    if s.len() > 0 {
        let init = s.drop_last();
        lemma_split_pieces(init, sep);
        lemma_split_nonempty(init, sep);
        lemma_subrange_within(s, 0, s.len() - 1);
        assert(init =~= s.subrange(0, s.len() - 1));
        let rest = split(init, sep);
        let now = split(s, sep);
        assert forall|j: int| 0 <= j < now.len() implies !(#[trigger] now[j]).contains(sep)
            && chars_within(now[j], s) by {
            if j < rest.len() - 1 || (s.last() == sep && j < rest.len()) {
                assert(now[j] == rest[j]);
                lemma_within_trans(rest[j], init, s);
            } else if s.last() == sep {
                assert(now[j] =~= Seq::<char>::empty());
            } else {
                let piece = rest.last().push(s.last());
                assert(now[j] == piece);
                lemma_within_trans(rest.last(), init, s);
                assert(s.contains(s.last())) by {
                    assert(s[s.len() - 1] == s.last());
                }
                assert forall|k: int| 0 <= k < piece.len() implies piece[k] != sep && s.contains(
                    #[trigger] piece[k],
                ) by {
                    if k < piece.len() - 1 {
                        assert(piece[k] == rest.last()[k]);
                        assert(rest.last().contains(piece[k]));
                    }
                }
            }
        }
    }
}

/// `trim_start` drops a prefix and leaves no leading whitespace.
proof fn lemma_trim_start_shape(x: Seq<char>)
    ensures
        exists|a: int| 0 <= a <= x.len() && trim_start(x) == x.subrange(a, x.len() as int),
        trim_start(x).len() > 0 ==> !is_whitespace(trim_start(x)[0]),
    decreases x.len(),
{
    if x.len() > 0 && is_whitespace(x[0]) {
        lemma_trim_start_shape(x.drop_first());
        let a = choose|a: int|
            0 <= a <= x.drop_first().len() && trim_start(x.drop_first()) == x.drop_first().subrange(
                a,
                x.drop_first().len() as int,
            );
        assert(x.drop_first().subrange(a, x.drop_first().len() as int) =~= x.subrange(
            a + 1,
            x.len() as int,
        ));
    } else {
        assert(x.subrange(0, x.len() as int) =~= x);
    }
}

/// `trim_end` drops a suffix and leaves no trailing whitespace.
proof fn lemma_trim_end_shape(x: Seq<char>)
    ensures
        exists|b: int| 0 <= b <= x.len() && trim_end(x) == x.subrange(0, b),
        trim_end(x).len() > 0 ==> !is_whitespace(trim_end(x).last()),
    decreases x.len(),
{
    if x.len() > 0 && is_whitespace(x.last()) {
        lemma_trim_end_shape(x.drop_last());
        let b = choose|b: int|
            0 <= b <= x.drop_last().len() && trim_end(x.drop_last()) == x.drop_last().subrange(0, b);
        assert(x.drop_last().subrange(0, b) =~= x.subrange(0, b));
    } else {
        assert(x.subrange(0, x.len() as int) =~= x);
    }
}

/// Trimming keeps only characters of the text, and trimming twice trims no more.
pub proof fn lemma_trim_shape(x: Seq<char>)
    ensures
        chars_within(trim(x), x),
        trim(trim(x)) == trim(x),
        trim(x).len() > 0 ==> !is_whitespace(trim(x)[0]) && !is_whitespace(trim(x).last()),
{
    lemma_trim_start_shape(x);
    let t = trim_start(x);
    let a = choose|a: int| 0 <= a <= x.len() && t == x.subrange(a, x.len() as int);
    lemma_subrange_within(x, a, x.len() as int);
    lemma_trim_end_shape(t);
    let y = trim_end(t);
    let b = choose|b: int| 0 <= b <= t.len() && y == t.subrange(0, b);
    lemma_subrange_within(t, 0, b);
    lemma_within_trans(y, t, x);
    if y.len() > 0 {
        assert(y[0] == t[0]);
        assert(trim_start(y) == y);
        assert(trim_end(y) == y);
    } else {
        assert(trim_start(y) == y);
        assert(trim_end(y) == y);
    }
}

/// The lines of a text hold no line feed and only characters of the text.
pub proof fn lemma_lines_pieces(s: Seq<char>)
    ensures
        forall|j: int|
            0 <= j < lines(s).len() ==> !(#[trigger] lines(s)[j]).contains('\n') && chars_within(
                lines(s)[j],
                s,
            ),
{
    lemma_split_pieces(s, '\n');
    lemma_split_nonempty(s, '\n');
    let parts = split(s, '\n');
    let ls = lines(s);
    assert forall|j: int| 0 <= j < ls.len() implies !(#[trigger] ls[j]).contains('\n')
        && chars_within(ls[j], s) by {
        let p = parts[j];
        if j < parts.len() - 1 {
            assert(ls[j] == strip_cr(p));
            if p.len() > 0 && p.last() == '\r' {
                lemma_subrange_within(p, 0, p.len() - 1);
                assert(p.drop_last() =~= p.subrange(0, p.len() - 1));
                lemma_within_trans(p.drop_last(), p, s);
                assert forall|k: int| 0 <= k < p.drop_last().len() implies p.drop_last()[k]
                    != '\n' by {
                    assert(p.drop_last()[k] == p[k]);
                    assert(p.contains(p[k]));
                }
            }
        } else {
            assert(ls[j] == parts.last());
        }
    }
}

/// Splitting a text joined by the separator splits each side.
pub proof fn lemma_split_concat(a: Seq<char>, b: Seq<char>, sep: char)
    ensures
        split(a + seq![sep] + b, sep) == split(a, sep) + split(b, sep),
    decreases b.len(),
{
    let t = a + seq![sep] + b;
    lemma_split_nonempty(a, sep);
    if b.len() == 0 {
        assert(t =~= a.push(sep));
        assert(t.drop_last() =~= a);
        assert(split(a, sep) + split(b, sep) =~= split(a, sep).push(Seq::<char>::empty()));
    } else {
        let b0 = b.drop_last();
        lemma_split_concat(a, b0, sep);
        lemma_split_nonempty(b0, sep);
        assert(t.drop_last() =~= a + seq![sep] + b0);
        assert(t.last() == b.last());
        let x = split(a, sep);
        let y = split(b0, sep);
        if b.last() == sep {
            assert(split(t, sep) =~= x + y.push(Seq::<char>::empty()));
        } else {
            assert((x + y).update((x + y).len() - 1, (x + y).last().push(b.last())) =~= x + y.update(
                y.len() - 1,
                y.last().push(b.last()),
            ));
        }
    }
}

/// A text without the separator is a single piece.
pub proof fn lemma_split_free(s: Seq<char>, sep: char)
    requires
        !s.contains(sep),
    ensures
        split(s, sep) == seq![s],
    decreases s.len(),
{
    if s.len() == 0 {
        assert(s =~= Seq::<char>::empty());
    } else {
        let init = s.drop_last();
        assert(!init.contains(sep)) by {
            if init.contains(sep) {
                let k = choose|k: int| 0 <= k < init.len() && init[k] == sep;
                assert(s[k] == sep);
            }
        }
        lemma_split_free(init, sep);
        assert(s.last() != sep) by {
            assert(s[s.len() - 1] == s.last());
        }
        assert(init.push(s.last()) =~= s);
        assert(split(s, sep) =~= seq![init].update(0, init.push(s.last())));
        assert(split(s, sep) =~= seq![s]);
    }
}

/// A split into one piece leaves the text whole.
pub proof fn lemma_split_single(s: Seq<char>, sep: char)
    requires
        split(s, sep).len() == 1,
    ensures
        split(s, sep)[0] == s,
    decreases s.len(),
{
    if s.len() > 0 {
        let init = s.drop_last();
        lemma_split_nonempty(init, sep);
        if s.last() != sep {
            lemma_split_single(init, sep);
            assert(init.push(s.last()) =~= s);
        }
    }
}

/// The lines of a text joined by a line feed: the pieces of the first part, each ended by a
/// line feed, then the lines of the second part.
pub proof fn lemma_lines_concat(a: Seq<char>, b: Seq<char>)
    ensures
        lines(a + seq!['\n'] + b) == split(a, '\n').map_values(|l: Seq<char>| strip_cr(l)) + lines(b),
{
    lemma_split_concat(a, b, '\n');
    lemma_split_nonempty(a, '\n');
    lemma_split_nonempty(b, '\n');
    let x = split(a, '\n');
    let y = split(b, '\n');
    let parts = x + y;
    assert(parts.drop_last() =~= x + y.drop_last());
    assert(parts.last() == y.last());
    assert((x + y.drop_last()).map_values(|l: Seq<char>| strip_cr(l)) =~= x.map_values(
        |l: Seq<char>| strip_cr(l),
    ) + y.drop_last().map_values(|l: Seq<char>| strip_cr(l)));
    if y.last().len() == 0 {
    } else {
        assert((x.map_values(|l: Seq<char>| strip_cr(l)) + y.drop_last().map_values(
            |l: Seq<char>| strip_cr(l),
        )).push(y.last()) =~= x.map_values(|l: Seq<char>| strip_cr(l)) + y.drop_last().map_values(
            |l: Seq<char>| strip_cr(l),
        ).push(y.last()));
    }
}

/// A text without line feeds is one line, or none when empty.
pub proof fn lemma_lines_single(a: Seq<char>)
    requires
        !a.contains('\n'),
    ensures
        lines(a) == (if a.len() == 0 {
            Seq::<Seq<char>>::empty()
        } else {
            seq![a]
        }),
{
    lemma_split_free(a, '\n');
    let parts = split(a, '\n');
    assert(parts.drop_last() =~= Seq::<Seq<char>>::empty());
    assert(parts.drop_last().map_values(|l: Seq<char>| strip_cr(l)) =~= Seq::<Seq<char>>::empty());
    if a.len() > 0 {
        assert(Seq::<Seq<char>>::empty().push(a) =~= seq![a]);
    }
}

/// The pieces joined by the separator, as `join` on a slice of strings gives them.
pub open spec fn join(parts: Seq<Seq<char>>, sep: char) -> Seq<char>
    decreases parts.len(),
{
    if parts.len() == 0 {
        Seq::empty()
    } else if parts.len() == 1 {
        parts[0]
    } else {
        join(parts.drop_last(), sep) + seq![sep] + parts.last()
    }
}

/// Splitting joined pieces that hold no separator gives the pieces back.
pub proof fn lemma_split_join(parts: Seq<Seq<char>>, sep: char)
    requires
        parts.len() >= 1,
        forall|i: int| 0 <= i < parts.len() ==> !(#[trigger] parts[i]).contains(sep),
    ensures
        split(join(parts, sep), sep) == parts,
    decreases parts.len(),
{
    if parts.len() == 1 {
        lemma_split_free(parts[0], sep);
        assert(seq![parts[0]] =~= parts);
    } else {
        let init = parts.drop_last();
        assert forall|i: int| 0 <= i < init.len() implies !(#[trigger] init[i]).contains(sep) by {
            assert(init[i] == parts[i]);
        }
        lemma_split_join(init, sep);
        lemma_split_concat(join(init, sep), parts.last(), sep);
        lemma_split_free(parts.last(), sep);
        assert(init + seq![parts.last()] =~= parts);
    }
}

/// A character of joined pieces is the separator or a character of a piece.
pub proof fn lemma_join_absent(parts: Seq<Seq<char>>, sep: char, c: char)
    requires
        c != sep,
        forall|i: int| 0 <= i < parts.len() ==> !(#[trigger] parts[i]).contains(c),
    ensures
        !join(parts, sep).contains(c),
    decreases parts.len(),
{
    if parts.len() > 1 {
        let init = parts.drop_last();
        assert forall|i: int| 0 <= i < init.len() implies !(#[trigger] init[i]).contains(c) by {
            assert(init[i] == parts[i]);
        }
        lemma_join_absent(init, sep, c);
        let j = join(parts, sep);
        let ji = join(init, sep);
        if j.contains(c) {
            let k = choose|k: int| 0 <= k < j.len() && j[k] == c;
            if k < ji.len() {
                assert(ji[k] == c);
            } else if k == ji.len() {
            } else {
                assert(parts.last()[k - ji.len() - 1] == c);
                assert(parts[parts.len() - 1] == parts.last());
            }
        }
    } else if parts.len() == 1 {
        assert(parts[0] == join(parts, sep));
    }
}

/// The ends of joined pieces: each is the separator or the end of the first or last piece.
pub proof fn lemma_join_ends(parts: Seq<Seq<char>>, sep: char)
    requires
        parts.len() >= 2 || (parts.len() == 1 && parts[0].len() > 0),
    ensures
        join(parts, sep).len() > 0,
        join(parts, sep)[0] == sep || (parts[0].len() > 0 && join(parts, sep)[0] == parts[0][0]),
        join(parts, sep).last() == sep || (parts.last().len() > 0 && join(parts, sep).last()
            == parts.last().last()),
    decreases parts.len(),
{
    if parts.len() >= 2 {
        let init = parts.drop_last();
        let ji = join(init, sep);
        let j = join(parts, sep);
        if init.len() >= 2 || init[0].len() > 0 {
            lemma_join_ends(init, sep);
            assert(j[0] == ji[0]);
            assert(init[0] == parts[0]);
        } else {
            assert(ji == init[0]);
            assert(j[0] == sep);
        }
        if parts.last().len() > 0 {
            assert(j.last() == parts.last().last());
        } else {
            assert(j.last() == sep);
        }
    }
}

} // verus!
