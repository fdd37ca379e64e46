//! Splitting one tag value into several names, and joining names back into one value.
use vstd::prelude::*;
use crate::text::{trim_str, trimmed, strings_view};

verus! {

/// A character that separates two names inside one tag value.
pub open spec fn is_delimiter(c: char) -> bool {
    c == '/' || c == '&'
}

/// The stretches of `s` between delimiters, empty ones included; never an empty sequence.
pub open spec fn fields(s: Seq<char>) -> Seq<Seq<char>>
    decreases s.len(),
{
    if s.len() == 0 {
        seq![Seq::empty()]
    } else {
        let f = fields(s.drop_last());
        if is_delimiter(s.last()) {
            f.push(Seq::empty())
        } else {
            f.update(f.len() - 1, f.last().push(s.last()))
        }
    }
}

/// Each field trimmed, with the ones that are then empty left out.
pub open spec fn kept_names(fs: Seq<Seq<char>>) -> Seq<Seq<char>>
    decreases fs.len(),
{
    if fs.len() == 0 {
        Seq::empty()
    } else {
        let rest = kept_names(fs.drop_last());
        let t = trimmed(fs.last());
        if t.len() > 0 {
            rest.push(t)
        } else {
            rest
        }
    }
}

/// The names one tag value holds: split on `/` and on `&`, trimmed, empty ones dropped.
pub open spec fn split_names(s: Seq<char>) -> Seq<Seq<char>> {
    kept_names(fields(s))
}

/// The names of several tag values, value by value, in order.
pub open spec fn split_all(vs: Seq<Seq<char>>) -> Seq<Seq<char>>
    decreases vs.len(),
{
    if vs.len() == 0 {
        Seq::empty()
    } else {
        split_all(vs.drop_last()) + split_names(vs.last())
    }
}

/// Each name followed by a `/`.
pub open spec fn joined(names: Seq<Seq<char>>) -> Seq<char>
    decreases names.len(),
{
    if names.len() == 0 {
        Seq::empty()
    } else {
        joined(names.drop_last()) + names.last().push('/')
    }
}

/// A name that splitting gives back unchanged: not empty, trimmed, with no delimiter.
pub open spec fn is_plain_name(n: Seq<char>) -> bool {
    n.len() > 0 && trimmed(n) == n && forall|i: int| 0 <= i < n.len() ==> !is_delimiter(#[trigger] n[i])
}

proof fn lemma_fields_nonempty(s: Seq<char>)
    ensures
        fields(s).len() >= 1,
    decreases s.len(),
{
    if s.len() > 0 {
        lemma_fields_nonempty(s.drop_last());
    }
}

proof fn lemma_fields_after_delimiter(a: Seq<char>, d: char, b: Seq<char>)
    requires
        is_delimiter(d),
    ensures
        fields(a.push(d) + b) == fields(a) + fields(b),
    decreases b.len(),
{
    lemma_fields_nonempty(b);
    if b.len() == 0 {
        assert(a.push(d) + b == a.push(d));
        assert(a.push(d).drop_last() == a);
        assert(fields(a.push(d)) =~= fields(a) + fields(b));
    } else {
        let b0 = b.drop_last();
        lemma_fields_after_delimiter(a, d, b0);
        lemma_fields_nonempty(b0);
        assert((a.push(d) + b).drop_last() == a.push(d) + b0);
        assert((a.push(d) + b).last() == b.last());
        assert(fields(a.push(d) + b) =~= fields(a) + fields(b));
    }
}

proof fn lemma_kept_names_concat(x: Seq<Seq<char>>, y: Seq<Seq<char>>)
    ensures
        kept_names(x + y) == kept_names(x) + kept_names(y),
    decreases y.len(),
{
    if y.len() == 0 {
        assert(x + y =~= x);
        assert(kept_names(x) + kept_names(y) =~= kept_names(x));
    } else {
        lemma_kept_names_concat(x, y.drop_last());
        assert((x + y).drop_last() =~= x + y.drop_last());
        assert((x + y).last() == y.last());
        assert(kept_names(x + y) =~= kept_names(x) + kept_names(y));
    }
}

/// Joining two values with a delimiter and splitting the result gives the names of the
/// first value followed by those of the second.
pub proof fn lemma_split_across_delimiter(a: Seq<char>, d: char, b: Seq<char>)
    requires
        is_delimiter(d),
    ensures
        split_names(a.push(d) + b) == split_names(a) + split_names(b),
{
    lemma_fields_after_delimiter(a, d, b);
    lemma_kept_names_concat(fields(a), fields(b));
}

/// Splitting a list of values item by item is compatible with concatenating lists: the
/// names of `a + b` are the names of `a` followed by the names of `b`.
pub proof fn lemma_split_all_concat(a: Seq<Seq<char>>, b: Seq<Seq<char>>)
    ensures
        split_all(a + b) == split_all(a) + split_all(b),
    decreases b.len(),
{
    if b.len() == 0 {
        assert(a + b =~= a);
        assert(split_all(a) + split_all(b) =~= split_all(a));
    } else {
        lemma_split_all_concat(a, b.drop_last());
        assert((a + b).drop_last() =~= a + b.drop_last());
        assert((a + b).last() == b.last());
        assert(split_all(a + b) =~= split_all(a) + split_all(b));
    }
}

proof fn lemma_fields_without_delimiter(n: Seq<char>)
    requires
        forall|i: int| 0 <= i < n.len() ==> !is_delimiter(#[trigger] n[i]),
    ensures
        fields(n) == seq![n],
    decreases n.len(),
{
    if n.len() == 0 {
        assert(n =~= Seq::<char>::empty());
        assert(fields(n) =~= seq![n]);
    } else {
        let m = n.drop_last();
        assert forall|i: int| 0 <= i < m.len() implies !is_delimiter(#[trigger] m[i]) by {
            assert(m[i] == n[i]);
        }
        lemma_fields_without_delimiter(m);
        assert(!is_delimiter(n[n.len() - 1]));
        assert(m.push(n.last()) =~= n);
        assert(n.drop_last() == m);
        let f = fields(m);
        assert(f.len() - 1 == 0);
        assert(f.last() == m);
        assert(fields(n) == f.update(0, m.push(n.last())));
        assert(fields(n) =~= seq![n]);
    }
}

proof fn lemma_split_plain_name(n: Seq<char>)
    requires
        is_plain_name(n),
    ensures
        split_names(n) == seq![n],
{
    lemma_fields_without_delimiter(n);
    assert(seq![n].drop_last() =~= Seq::<Seq<char>>::empty());
    assert(seq![n].last() == n);
    assert(kept_names(Seq::<Seq<char>>::empty()) == Seq::<Seq<char>>::empty());
    assert(kept_names(seq![n]) =~= seq![n]);
}

proof fn lemma_split_joined_then(names: Seq<Seq<char>>, t: Seq<char>)
    requires
        forall|i: int| 0 <= i < names.len() ==> is_plain_name(#[trigger] names[i]),
    ensures
        split_names(joined(names) + t) == names + split_names(t),
    decreases names.len(),
{
    if names.len() == 0 {
        assert(joined(names) + t =~= t);
        assert(names + split_names(t) =~= split_names(t));
    } else {
        let init = names.drop_last();
        let n = names.last();
        assert(is_plain_name(names[names.len() - 1]));
        let t2 = n.push('/') + t;
        assert forall|i: int| 0 <= i < init.len() implies is_plain_name(#[trigger] init[i]) by {
            assert(init[i] == names[i]);
        }
        lemma_split_joined_then(init, t2);
        assert(joined(names) + t =~= joined(init) + t2);
        lemma_split_across_delimiter(n, '/', t);
        lemma_split_plain_name(n);
        assert(names =~= init.push(n));
        assert(split_names(joined(names) + t) =~= names + split_names(t));
    }
}

/// Names that are non-empty, trimmed and free of delimiters come back unchanged when
/// joined into one value and split again.
pub proof fn lemma_split_joined(names: Seq<Seq<char>>)
    requires
        forall|i: int| 0 <= i < names.len() ==> is_plain_name(#[trigger] names[i]),
    ensures
        split_names(joined(names)) == names,
{
    lemma_split_joined_then(names, Seq::empty());
    assert(joined(names) + Seq::<char>::empty() =~= joined(names));
    assert(fields(Seq::<char>::empty()) =~= seq![Seq::<char>::empty()]);
    assert(trimmed(Seq::<char>::empty()) =~= Seq::<char>::empty());
    let e = Seq::<char>::empty();
    assert(seq![e].drop_last() =~= Seq::<Seq<char>>::empty());
    assert(seq![e].last() == e);
    assert(kept_names(Seq::<Seq<char>>::empty()) == Seq::<Seq<char>>::empty());
    assert(split_names(e) =~= Seq::<Seq<char>>::empty());
    assert(names + Seq::<Seq<char>>::empty() =~= names);
}

/// Splits one tag value into the names it holds.
pub fn split_artist_to_string(name: &str) -> (r: Vec<String>)
    ensures
        strings_view(r@) == split_names(name@),
{
    let n = name.unicode_len();
    let mut out: Vec<String> = Vec::new();
    let mut start: usize = 0;
    let mut i: usize = 0;
    while i < n
        invariant
            n == name@.len(),
            start <= i <= n,
            fields(name@.subrange(0, i as int)).len() >= 1,
            fields(name@.subrange(0, i as int)).last() == name@.subrange(start as int, i as int),
            strings_view(out@) == kept_names(fields(name@.subrange(0, i as int)).drop_last()),
        decreases n - i,
    {
        let c = name.get_char(i);
        let ghost pre = name@.subrange(0, i as int);
        let ghost post = name@.subrange(0, i + 1);
        assert(post.drop_last() == pre);
        assert(post.last() == c);
        proof {
            lemma_fields_nonempty(pre);
        }
        if c == '/' || c == '&' {
            let t = trim_str(name.substring_char(start, i));
            if !t.is_empty() {
                out.push(String::from_str(t));
            }
            assert(fields(post).drop_last() == fields(pre));
            assert(strings_view(out@) == kept_names(fields(pre)));
            start = i + 1;
        } else {
            assert(name@.subrange(start as int, i + 1) == name@.subrange(start as int, i as int).push(c));
            assert(fields(post).drop_last() == fields(pre).drop_last());
        }
        i = i + 1;
    }
    let t = trim_str(name.substring_char(start, n));
    if !t.is_empty() {
        out.push(String::from_str(t));
    }
    assert(name@.subrange(0, n as int) == name@);
    assert(strings_view(out@) == kept_names(fields(name@)));
    out
}

/// Splits several tag values and concatenates their names, value by value.
pub fn split_artists_to_string(values: &Vec<String>) -> (r: Vec<String>)
    ensures
        strings_view(r@) == split_all(strings_view(values@)),
{
    let mut out: Vec<String> = Vec::new();
    let mut i: usize = 0;
    while i < values.len()
        invariant
            i <= values.len(),
            strings_view(out@) == split_all(strings_view(values@.subrange(0, i as int))),
        decreases values.len() - i,
    {
        let mut names = split_artist_to_string(values[i].as_str());
        let ghost before = out@;
        out.append(&mut names);
        assert(strings_view(values@.subrange(0, i + 1)).drop_last()
            == strings_view(values@.subrange(0, i as int)));
        assert(strings_view(out@) == strings_view(before) + split_names(values@[i as int]@));
        i = i + 1;
    }
    assert(values@.subrange(0, values@.len() as int) == values@);
    out
}

/// Joins names into one tag value, each name followed by a `/`.
pub fn generate_artist(artists: &Vec<String>) -> (r: String)
    ensures
        r@ == joined(strings_view(artists@)),
{
    let mut out = String::new();
    let mut i: usize = 0;
    while i < artists.len()
        invariant
            i <= artists.len(),
            out@ == joined(strings_view(artists@.subrange(0, i as int))),
        decreases artists.len() - i,
    {
        out.append(artists[i].as_str());
        crate::text::push_char(&mut out, '/');
        assert(strings_view(artists@.subrange(0, i + 1)).drop_last()
            == strings_view(artists@.subrange(0, i as int)));
        i = i + 1;
    }
    assert(artists@.subrange(0, artists@.len() as int) == artists@);
    out
}

} // verus!
