//! Reading comma or newline separated lists, and random identifiers.

use vstd::prelude::*;

use crate::text::{
    char_vec_views, chars_of, chars_within, copy_range, is_whitespace, join, lemma_join_absent,
    lemma_join_ends, lemma_lines_concat, lemma_lines_pieces, lemma_lines_single,
    lemma_split_concat, lemma_split_free, lemma_split_join, lemma_split_nonempty,
    lemma_split_pieces, lemma_split_single, lemma_trim_shape, lemma_within_trans, lines, lines_of,
    push_char, split, split_chars, string_of_range, string_views, strip_cr, trim, trim_end,
    trim_start, trim_bounds,
};
use vstd::seq_lib::lemma_flatten_concat;

verus! {

/// The part of a line before its first `#`.
pub open spec fn before_comment(line: Seq<char>) -> Seq<char> {
    split(line, '#')[0]
}

/// The values that one line of a list holds: none for a line that starts with `#` or holds
/// nothing but a comment and whitespace; else its comma separated entries, trimmed.
pub open spec fn line_values(line: Seq<char>) -> Seq<Seq<char>> {
    if line.len() > 0 && line[0] == '#' {
        Seq::empty()
    } else {
        let kept = trim(before_comment(line));
        if kept.len() == 0 {
            Seq::empty()
        } else {
            split(kept, ',').map_values(|p: Seq<char>| trim(p))
        }
    }
}

/// The values of a comma and newline separated list, line after line.
pub open spec fn list_values(text: Seq<char>) -> Seq<Seq<char>> {
    lines(text).map_values(|l: Seq<char>| line_values(l)).flatten()
}

/// The values that one line of a list holds.
fn values_of_line(line: &Vec<char>) -> (r: Vec<String>)
    ensures
        string_views(r@) == line_values(line@),
{
    let mut r: Vec<String> = Vec::new();
    if line.len() > 0 && line[0] == '#' {
        assert(string_views(r@) =~= line_values(line@));
        return r;
    }
    let pieces = split_chars(line, '#');
    proof {
        lemma_split_nonempty(line@, '#');
        assert(pieces@[0]@ == char_vec_views(pieces@)[0]);
    }
    let head = &pieces[0];
    let (st, en) = trim_bounds(head);
    if st == en {
        assert(string_views(r@) =~= line_values(line@));
        return r;
    }
    let kept = copy_range(head, st, en);
    let parts = split_chars(&kept, ',');
    let ghost sv = split(kept@, ',');
    let count = parts.len();
    assert(count == sv.len()) by {
        assert(char_vec_views(parts@).len() == parts@.len());
    }
    let mut i: usize = 0;
    while i < count
        invariant
            count == parts@.len() == sv.len(),
            char_vec_views(parts@) == sv,
            i <= count,
            string_views(r@) == sv.take(i as int).map_values(|p: Seq<char>| trim(p)),
        decreases count - i,
    {
        let part = &parts[i];
        assert(part@ == sv[i as int]);
        let (a, b) = trim_bounds(part);
        let value = string_of_range(part, a, b);
        let ghost old_r = r@;
        assert(old_r.len() == i) by {
            assert(string_views(old_r).len() == old_r.len());
            assert(sv.take(i as int).map_values(|p: Seq<char>| trim(p)).len() == i);
        }
        r.push(value);
        proof {
            let target = sv.take(i + 1).map_values(|p: Seq<char>| trim(p));
            assert forall|k: int| 0 <= k < i implies string_views(r@)[k] == target[k] by {
                assert(sv.take(i as int)[k] == sv[k]);
                assert(r@[k] == old_r[k]);
                assert(string_views(old_r)[k] == old_r[k]@);
            }
            assert(string_views(r@)[i as int] == value@);
            assert(string_views(r@) =~= target);
        }
        i = i + 1;
    }
    assert(sv.take(count as int) =~= sv);
    r
}

/// The values of a comma and newline separated list: each line is cut at its first `#`,
/// lines left blank are skipped, and the rest is split at `,` into trimmed values.
pub fn get_list_string(value: &str) -> (values: Vec<String>)
    ensures
        string_views(values@) == list_values(value@),
{
    let text = chars_of(value);
    let all_lines = lines_of(&text);
    let ghost lv = lines(value@);
    let ghost per_line = lv.map_values(|l: Seq<char>| line_values(l));
    let count = all_lines.len();
    assert(count == lv.len()) by {
        assert(char_vec_views(all_lines@).len() == all_lines@.len());
    }
    let mut values: Vec<String> = Vec::new();
    let mut i: usize = 0;
    assert(per_line.take(0).flatten_alt() =~= Seq::<Seq<char>>::empty());
    while i < count
        invariant
            count == all_lines@.len() == lv.len() == per_line.len(),
            char_vec_views(all_lines@) == lv,
            per_line == lv.map_values(|l: Seq<char>| line_values(l)),
            i <= count,
            string_views(values@) == per_line.take(i as int).flatten_alt(),
        decreases count - i,
    {
        let line = &all_lines[i];
        assert(line@ == lv[i as int]);
        let found = values_of_line(line);
        let ghost before = values@;
        let m = found.len();
        let mut k: usize = 0;
        while k < m
            invariant
                k <= m == found@.len(),
                string_views(values@) == string_views(before) + string_views(found@).take(
                    k as int,
                ),
            decreases m - k,
        {
            let ghost prev = values@;
            values.push(found[k].clone());
            proof {
                assert(string_views(values@) =~= string_views(prev).push(found@[k as int]@));
                assert(string_views(found@).take(k + 1) =~= string_views(found@).take(
                    k as int,
                ).push(found@[k as int]@));
            }
            k = k + 1;
        }
        proof {
            assert(string_views(found@).take(m as int) =~= string_views(found@));
            assert(per_line.take(i + 1).drop_last() =~= per_line.take(i as int));
            assert(per_line.take(i + 1).last() == line_values(lv[i as int]));
        }
        i = i + 1;
    }
    proof {
        assert(per_line.take(count as int) =~= per_line);
        per_line.lemma_flatten_and_flatten_alt_are_equivalent();
    }
    values
}

/// The characters a random string is drawn from.
pub open spec fn random_charset() -> Seq<char> {
    seq!['a', 'b', 'c', 'd', 'e', 'f', '0', '1', '2', '3', '4', '5', '6', '7', '8', '9']
}

/// The string whose characters are the characters of `abcdef0123456789` at the positions
/// `indices`, in order: a random string, once the positions have been drawn at random.
pub fn random_string_from_indices(indices: &Vec<usize>) -> (s: String)
    requires
        forall|i: int| 0 <= i < indices@.len() ==> indices@[i] < 16,
    ensures
        s@ == indices@.map_values(|k: usize| random_charset()[k as int]),
{
    let charset: [char; 16] = [
        'a', 'b', 'c', 'd', 'e', 'f', '0', '1', '2', '3', '4', '5', '6', '7', '8', '9',
    ];
    assert(charset@ =~= random_charset());
    let mut s = String::new();
    let mut k: usize = 0;
    while k < indices.len()
        invariant
            k <= indices@.len(),
            charset@ == random_charset(),
            forall|i: int| 0 <= i < indices@.len() ==> indices@[i] < 16,
            s@ == indices@.take(k as int).map_values(|j: usize| random_charset()[j as int]),
        decreases indices@.len() - k,
    {
        let c = charset[indices[k]];
        push_char(&mut s, c);
        assert(s@ =~= indices@.take(k + 1).map_values(|j: usize| random_charset()[j as int]));
        k = k + 1;
    }
    assert(indices@.take(k as int) =~= indices@);
    s
}

/// A value as a list gives it: no comment mark, no comma, no line feed, nothing to trim.
pub open spec fn is_clean_value(v: Seq<char>) -> bool {
    &&& !v.contains('#')
    &&& !v.contains(',')
    &&& !v.contains('\n')
    &&& trim(v) == v
}

/// A character that does not occur in a text does not occur in a part of it.
proof fn lemma_absent_within(p: Seq<char>, s: Seq<char>, c: char)
    requires
        chars_within(p, s),
        !s.contains(c),
    ensures
        !p.contains(c),
{
    if p.contains(c) {
        let k = choose|k: int| 0 <= k < p.len() && p[k] == c;
        assert(s.contains(p[k]));
    }
}

/// The values of a line without line feeds are clean.
proof fn lemma_line_values_clean(line: Seq<char>)
    requires
        !line.contains('\n'),
    ensures
        forall|i: int| 0 <= i < line_values(line).len() ==> is_clean_value(#[trigger] line_values(line)[i]),
{
    if !(line.len() > 0 && line[0] == '#') {
        lemma_split_pieces(line, '#');
        lemma_split_nonempty(line, '#');
        let before = before_comment(line);
        let kept = trim(before);
        lemma_trim_shape(before);
        lemma_within_trans(kept, before, line);
        lemma_absent_within(kept, line, '\n');
        lemma_absent_within(kept, before, '#');
        if kept.len() > 0 {
            lemma_split_pieces(kept, ',');
            let parts = split(kept, ',');
            let vals = line_values(line);
            assert forall|i: int| 0 <= i < vals.len() implies is_clean_value(#[trigger] vals[i]) by {
                let p = parts[i];
                assert(vals[i] == trim(p));
                lemma_trim_shape(p);
                lemma_within_trans(trim(p), p, kept);
                lemma_absent_within(trim(p), kept, '\n');
                lemma_absent_within(trim(p), kept, '#');
                lemma_absent_within(trim(p), p, ',');
            }
        }
    }
}

/// Every element of a flattened sequence comes from one of its parts.
proof fn lemma_flatten_all(parts: Seq<Seq<Seq<char>>>)
    requires
        forall|j: int, k: int|
            0 <= j < parts.len() && 0 <= k < parts[j].len() ==> is_clean_value(
                #[trigger] parts[j][k],
            ),
    ensures
        forall|i: int| 0 <= i < parts.flatten().len() ==> is_clean_value(#[trigger] parts.flatten()[i]),
    decreases parts.len(),
{
    if parts.len() > 0 {
        let rest = parts.drop_first();
        assert forall|j: int, k: int| 0 <= j < rest.len() && 0 <= k < rest[j].len() implies is_clean_value(
            #[trigger] rest[j][k],
        ) by {
            assert(rest[j] == parts[j + 1]);
        }
        lemma_flatten_all(rest);
        let f = parts.flatten();
        assert(f == parts.first() + rest.flatten());
        assert forall|i: int| 0 <= i < f.len() implies is_clean_value(#[trigger] f[i]) by {
            if i < parts.first().len() {
                assert(f[i] == parts[0][i]);
            } else {
                assert(f[i] == rest.flatten()[i - parts.first().len()]);
            }
        }
    }
}

/// Every value a list gives is clean: it holds no `#`, no `,`, no line feed, and has no
/// whitespace at either end.
pub proof fn law_list_values_are_clean(text: Seq<char>)
    ensures
        forall|i: int| 0 <= i < list_values(text).len() ==> is_clean_value(#[trigger] list_values(text)[i]),
{
    lemma_lines_pieces(text);
    let ls = lines(text);
    let parts = ls.map_values(|l: Seq<char>| line_values(l));
    assert forall|j: int, k: int| 0 <= j < parts.len() && 0 <= k < parts[j].len() implies is_clean_value(
        #[trigger] parts[j][k],
    ) by {
        lemma_line_values_clean(ls[j]);
    }
    lemma_flatten_all(parts);
}

/// Trimming at the start a text with whitespace appended.
proof fn lemma_trim_start_push(x: Seq<char>, c: char)
    requires
        is_whitespace(c),
    ensures
        trim_start(x.push(c)) == (if trim_start(x).len() == 0 {
            Seq::<char>::empty()
        } else {
            trim_start(x).push(c)
        }),
    decreases x.len(),
{
    if x.len() == 0 {
        assert(seq![c].drop_first() =~= Seq::<char>::empty());
        assert(x.push(c) =~= seq![c]);
        assert(trim_start(Seq::<char>::empty()) == Seq::<char>::empty());
        assert(trim_start(x.push(c)) == trim_start(x.push(c).drop_first()));
    } else if is_whitespace(x[0]) {
        assert(x.push(c).drop_first() =~= x.drop_first().push(c));
        lemma_trim_start_push(x.drop_first(), c);
    } else {
        assert(x.push(c)[0] == x[0]);
    }
}

/// Appending whitespace does not change a trimmed text.
proof fn lemma_trim_push_whitespace(x: Seq<char>, c: char)
    requires
        is_whitespace(c),
    ensures
        trim(x.push(c)) == trim(x),
{
    lemma_trim_start_push(x, c);
    let t = trim_start(x);
    if t.len() > 0 {
        assert(t.push(c).drop_last() =~= t);
        assert(t.push(c).last() == c);
    }
}

/// A carriage return that ends a line does not change its values.
proof fn lemma_line_values_strip_cr(l: Seq<char>)
    ensures
        line_values(strip_cr(l)) == line_values(l),
{
    if l.len() > 0 && l.last() == '\r' {
        let l2 = l.drop_last();
        assert(is_whitespace('\r'));
        lemma_split_nonempty(l2, '#');
        let p2 = split(l2, '#');
        assert(l2.push('\r') =~= l);
        assert(split(l, '#') == p2.update(p2.len() - 1, p2.last().push('\r')));
        if l2.len() > 0 {
            assert(l[0] == l2[0]);
        }
        if p2.len() == 1 {
            assert(before_comment(l) == before_comment(l2).push('\r'));
            lemma_trim_push_whitespace(before_comment(l2), '\r');
        } else {
            assert(before_comment(l) == before_comment(l2));
        }
        if l2.len() == 0 {
            assert(trim(before_comment(l2)) =~= Seq::<char>::empty()) by {
                assert(before_comment(l2) =~= Seq::<char>::empty());
            }
        }
    }
}

/// The values of the pieces of a text split at line feeds, each with a carriage return at
/// its end dropped or not, are the values of its lines.
proof fn lemma_values_of_pieces(a: Seq<char>)
    ensures
        split(a, '\n').map_values(|l: Seq<char>| strip_cr(l)).map_values(
            |l: Seq<char>| line_values(l),
        ).flatten() == list_values(a),
{
    lemma_split_nonempty(a, '\n');
    let x = split(a, '\n');
    let stripped = x.map_values(|l: Seq<char>| strip_cr(l)).map_values(|l: Seq<char>| line_values(l));
    let init = x.drop_last().map_values(|l: Seq<char>| strip_cr(l));
    assert forall|i: int| 0 <= i < x.len() implies (#[trigger] stripped[i]) == line_values(x[i]) by {
        lemma_line_values_strip_cr(x[i]);
    }
    assert(stripped =~= init.map_values(|l: Seq<char>| line_values(l)).push(line_values(x.last())))
        by {
        assert forall|i: int| 0 <= i < init.len() implies (#[trigger] init[i]) == strip_cr(x[i]) by {
            assert(x.drop_last()[i] == x[i]);
        }
        lemma_line_values_strip_cr(x.last());
        assert(x[x.len() - 1] == x.last());
    }
    init.map_values(|l: Seq<char>| line_values(l)).lemma_flatten_push(line_values(x.last()));
    if x.last().len() == 0 {
        assert(split(x.last(), '#') =~= seq![Seq::<char>::empty()]) by {
            lemma_split_free(x.last(), '#');
        }
        assert(line_values(x.last()) =~= Seq::<Seq<char>>::empty()) by {
            assert(trim(before_comment(x.last())) =~= Seq::<char>::empty());
        }
        assert(lines(a) == init);
    } else {
        assert(lines(a) == init.push(x.last()));
        assert(lines(a).map_values(|l: Seq<char>| line_values(l)) =~= init.map_values(
            |l: Seq<char>| line_values(l),
        ).push(line_values(x.last())));
    }
}

/// Two lists joined by a line feed give the values of the first, then those of the second.
pub proof fn law_list_join_lines(a: Seq<char>, b: Seq<char>)
    ensures
        list_values(a + seq!['\n'] + b) == list_values(a) + list_values(b),
{
    let t = a + seq!['\n'] + b;
    lemma_lines_concat(a, b);
    let x = split(a, '\n').map_values(|l: Seq<char>| strip_cr(l));
    assert(lines(t).map_values(|l: Seq<char>| line_values(l)) =~= x.map_values(
        |l: Seq<char>| line_values(l),
    ) + lines(b).map_values(|l: Seq<char>| line_values(l)));
    lemma_flatten_concat(
        x.map_values(|l: Seq<char>| line_values(l)),
        lines(b).map_values(|l: Seq<char>| line_values(l)),
    );
    lemma_values_of_pieces(a);
}

/// A `#` comment at the end of a line changes none of its values.
pub proof fn law_comment_ignored(a: Seq<char>, c: Seq<char>)
    requires
        !a.contains('\n'),
        !c.contains('\n'),
    ensures
        list_values(a + seq!['#'] + c) == list_values(a),
{
    let t = a + seq!['#'] + c;
    assert(!t.contains('\n')) by {
        if t.contains('\n') {
            let k = choose|k: int| 0 <= k < t.len() && t[k] == '\n';
            if k < a.len() {
                assert(a[k] == '\n');
            } else if k > a.len() {
                assert(c[k - a.len() - 1] == '\n');
            }
        }
    }
    lemma_lines_single(t);
    lemma_lines_single(a);
    let lt = lines(t).map_values(|l: Seq<char>| line_values(l));
    assert(lt =~= seq![line_values(t)]);
    lt.lemma_flatten_one_element();
    if a.len() == 0 {
        assert(t[0] == '#');
        assert(lines(a).map_values(|l: Seq<char>| line_values(l)) =~= Seq::<Seq<Seq<char>>>::empty());
        assert(line_values(t) =~= Seq::<Seq<char>>::empty());
    } else {
        let la = lines(a).map_values(|l: Seq<char>| line_values(l));
        assert(la =~= seq![line_values(a)]);
        la.lemma_flatten_one_element();
        assert(t[0] == a[0]);
        lemma_split_concat(a, c, '#');
        lemma_split_nonempty(a, '#');
        assert(before_comment(t) == before_comment(a));
    }
}

/// A line gives a single value only if that value is not empty.
proof fn lemma_single_line_value(l: Seq<char>)
    ensures
        line_values(l).len() == 1 ==> line_values(l)[0].len() > 0,
{
    if !(l.len() > 0 && l[0] == '#') {
        let kept = trim(before_comment(l));
        if kept.len() > 0 && split(kept, ',').len() == 1 {
            lemma_split_single(kept, ',');
            lemma_trim_shape(before_comment(l));
        }
    }
}

/// A list that has a single value has a non-empty one.
proof fn lemma_single_value_nonempty(parts: Seq<Seq<Seq<char>>>)
    requires
        forall|j: int|
            0 <= j < parts.len() ==> (#[trigger] parts[j]).len() == 1 ==> parts[j][0].len() > 0,
    ensures
        parts.flatten().len() == 1 ==> parts.flatten()[0].len() > 0,
    decreases parts.len(),
{
    if parts.len() > 0 {
        let rest = parts.drop_first();
        assert forall|j: int| 0 <= j < rest.len() && (#[trigger] rest[j]).len() == 1 implies rest[j][0].len()
            > 0 by {
            assert(rest[j] == parts[j + 1]);
        }
        lemma_single_value_nonempty(rest);
        let f = parts.flatten();
        assert(f == parts.first() + rest.flatten());
        if parts.first().len() == 0 {
            assert(f =~= rest.flatten());
        } else if parts.first().len() == 1 && f.len() == 1 {
            assert(f[0] == parts[0][0]);
        }
    }
}

/// The values of a list, joined with commas, read back as the same values.
pub proof fn law_rejoin_with_commas(text: Seq<char>)
    ensures
        list_values(join(list_values(text), ',')) == list_values(text),
{
    let r = list_values(text);
    let s = join(r, ',');
    law_list_values_are_clean(text);
    if r.len() == 0 {
        assert(s =~= Seq::<char>::empty());
        lemma_lines_single(s);
        assert(lines(s).map_values(|l: Seq<char>| line_values(l)) =~= Seq::<Seq<Seq<char>>>::empty());
        assert(list_values(s) =~= r);
    } else {
        let ls = lines(text);
        let parts = ls.map_values(|l: Seq<char>| line_values(l));
        assert forall|j: int| 0 <= j < parts.len() && (#[trigger] parts[j]).len() == 1 implies parts[j][0].len()
            > 0 by {
            lemma_single_line_value(ls[j]);
        }
        lemma_single_value_nonempty(parts);
        assert forall|i: int| 0 <= i < r.len() implies !(#[trigger] r[i]).contains('\n') by {
            assert(is_clean_value(r[i]));
        }
        assert forall|i: int| 0 <= i < r.len() implies !(#[trigger] r[i]).contains('#') by {
            assert(is_clean_value(r[i]));
        }
        assert forall|i: int| 0 <= i < r.len() implies !(#[trigger] r[i]).contains(',') by {
            assert(is_clean_value(r[i]));
        }
        lemma_join_absent(r, ',', '\n');
        lemma_join_absent(r, ',', '#');
        lemma_join_ends(r, ',');
        lemma_split_join(r, ',');
        lemma_split_free(s, '#');
        lemma_lines_single(s);
        // the joined text is already trimmed: it starts and ends with a value's end or a comma
        assert(is_clean_value(r[0]));
        assert(is_clean_value(r.last())) by {
            assert(r[r.len() - 1] == r.last());
        }
        lemma_trim_shape(r[0]);
        lemma_trim_shape(r.last());
        assert(!is_whitespace(s[0]));
        assert(!is_whitespace(s.last()));
        assert(s[0] != '#') by {
            if s[0] == '#' {
                assert(s.contains(s[0]));
            }
        }
        assert(trim_start(s) == s);
        assert(trim_end(s) == s);
        assert(before_comment(s) == s);
        assert forall|i: int| 0 <= i < r.len() implies trim(#[trigger] r[i]) == r[i] by {
            assert(is_clean_value(r[i]));
        }
        assert(line_values(s) =~= r);
        let lt = lines(s).map_values(|l: Seq<char>| line_values(l));
        assert(lt =~= seq![r]);
        lt.lemma_flatten_one_element();
    }
}

} // verus!
