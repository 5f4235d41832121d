//! Character-sequence helpers shared by the protocol modules.

use vstd::prelude::*;

verus! {

/// The characters of `s`, in order.
pub fn chars_of(s: &str) -> (r: Vec<char>)
    ensures
        r@ == s@,
{
    let mut r: Vec<char> = Vec::new();
    for c in it: s.chars()
        invariant
            it.seq() == s@,
            r@ == it.seq().take(it.index() as int),
    {
        r.push(c);
    }
    r
}

/// Relies on `String`'s `FromIterator<&char>`: the string holds exactly the given
/// characters, in order.
#[verifier::external_body]
pub(crate) fn string_of(v: &Vec<char>) -> (r: String)
    ensures
        r@ == v@,
{
    v.iter().collect::<String>()
}

/// Appends every character of `s` to `out`.
pub fn push_all(out: &mut Vec<char>, s: &Vec<char>)
    ensures
        final(out)@ == old(out)@ + s@,
{
    let mut i: usize = 0;
    while i < s.len()
        invariant
            i <= s.len(),
            out@ == old(out)@ + s@.take(i as int),
        decreases s.len() - i,
    {
        out.push(s[i]);
        i = i + 1;
        proof {
            assert(s@.take(i as int) == s@.take(i - 1) + seq![s@[i - 1]]);
        }
    }
    proof {
        assert(s@.take(s.len() as int) == s@);
    }
}

/// Whether `s` begins with `prefix`.
pub open spec fn starts_with(s: Seq<char>, prefix: Seq<char>) -> bool {
    prefix.len() <= s.len() && s.take(prefix.len() as int) == prefix
}

/// Whether `s[at..]` begins with `pat`.
pub fn matches_at(s: &Vec<char>, at: usize, pat: &Vec<char>) -> (r: bool)
    requires
        at <= s.len(),
    ensures
        r == starts_with(s@.skip(at as int), pat@),
{
    if pat.len() > s.len() - at {
        return false;
    }
    let mut j: usize = 0;
    while j < pat.len()
        invariant
            at + pat.len() <= s.len(),
            j <= pat.len(),
            forall|k: int| 0 <= k < j ==> s@[at + k] == pat@[k],
        decreases pat.len() - j,
    {
        if s[at + j] != pat[j] {
            proof {
                assert(s@.skip(at as int).take(pat.len() as int)[j as int] != pat@[j as int]);
            }
            return false;
        }
        j = j + 1;
    }
    proof {
        assert(s@.skip(at as int).take(pat.len() as int) =~= pat@);
    }
    true
}

/// Whether `a` and `b` hold the same characters.
pub fn same_chars(a: &Vec<char>, b: &Vec<char>) -> (r: bool)
    ensures
        r == (a@ == b@),
{
    if a.len() != b.len() {
        return false;
    }
    let mut i: usize = 0;
    while i < a.len()
        invariant
            a.len() == b.len(),
            i <= a.len(),
            forall|k: int| 0 <= k < i ==> a@[k] == b@[k],
        decreases a.len() - i,
    {
        if a[i] != b[i] {
            return false;
        }
        i = i + 1;
    }
    proof {
        assert(a@ =~= b@);
    }
    true
}

/// The pieces of `s` between occurrences of `sep`, as `str::split` gives them.
pub open spec fn split_on(s: Seq<char>, sep: char) -> Seq<Seq<char>>
    decreases s.len(),
{
    if s.len() == 0 {
        seq![Seq::<char>::empty()]
    } else {
        let init = split_on(s.drop_last(), sep);
        if s.last() == sep {
            init.push(Seq::<char>::empty())
        } else {
            init.update(init.len() - 1, init.last().push(s.last()))
        }
    }
}

pub proof fn lemma_split_on_nonempty(s: Seq<char>, sep: char)
    ensures
        split_on(s, sep).len() >= 1,
    decreases s.len(),
{
    if s.len() > 0 {
        lemma_split_on_nonempty(s.drop_last(), sep);
    }
}

/// The views of a sequence of character vectors.
pub open spec fn seqs(v: Seq<Vec<char>>) -> Seq<Seq<char>> {
    v.map_values(|l: Vec<char>| l@)
}

/// Splits `s` at every `sep`, as `str::split` does.
pub fn split_chars(s: &Vec<char>, sep: char) -> (r: Vec<Vec<char>>)
    ensures
        seqs(r@) == split_on(s@, sep),
{
    let mut done: Vec<Vec<char>> = Vec::new();
    let mut cur: Vec<char> = Vec::new();
    let mut i: usize = 0;
    proof {
        assert(s@.take(0) =~= Seq::<char>::empty());
        assert(seqs(done@).push(cur@) =~= split_on(s@.take(0), sep));
    }
    while i < s.len()
        invariant
            i <= s.len(),
            seqs(done@).push(cur@) == split_on(s@.take(i as int), sep),
        decreases s.len() - i,
    {
        let ghost prev = split_on(s@.take(i as int), sep);
        let ghost before = seqs(done@);
        proof {
            assert(s@.take(i + 1).drop_last() =~= s@.take(i as int));
            assert(s@.take(i + 1).last() == s@[i as int]);
        }
        let c = s[i];
        if c == sep {
            let finished = cur;
            done.push(finished);
            cur = Vec::new();
            proof {
                assert(seqs(done@) =~= before.push(finished@));
                assert(seqs(done@).push(cur@) =~= prev.push(Seq::<char>::empty()));
            }
        } else {
            cur.push(c);
            proof {
                assert(before.push(cur@) =~= prev.update(prev.len() - 1, prev.last().push(c)));
            }
        }
        i = i + 1;
    }
    proof {
        assert(s@.take(s.len() as int) =~= s@);
    }
    let ghost before = seqs(done@);
    let last = cur;
    done.push(last);
    proof {
        assert(seqs(done@) =~= before.push(last@));
    }
    done
}

/// `s` with every occurrence of `pat` replaced by `rep`, scanning from the left
/// without overlaps, as `str::replace` does.
pub open spec fn replace_all(s: Seq<char>, pat: Seq<char>, rep: Seq<char>) -> Seq<char>
    decreases s.len(),
{
    if s.len() == 0 {
        s
    } else if pat.len() > 0 && starts_with(s, pat) {
        rep + replace_all(s.skip(pat.len() as int), pat, rep)
    } else {
        seq![s[0]] + replace_all(s.skip(1), pat, rep)
    }
}

/// Replaces every occurrence of `pat` in `s` by `rep`.
pub fn replace_chars(s: &Vec<char>, pat: &Vec<char>, rep: &Vec<char>) -> (r: Vec<char>)
    requires
        pat.len() > 0,
    ensures
        r@ == replace_all(s@, pat@, rep@),
{
    let mut out: Vec<char> = Vec::new();
    let mut i: usize = 0;
    proof {
        assert(s@.skip(0) =~= s@);
    }
    while i < s.len()
        invariant
            pat.len() > 0,
            i <= s.len(),
            out@ + replace_all(s@.skip(i as int), pat@, rep@) == replace_all(s@, pat@, rep@),
        decreases s.len() - i,
    {
        let ghost rest = s@.skip(i as int);
        if matches_at(s, i, pat) {
            push_all(&mut out, rep);
            proof {
                assert(rest.skip(pat.len() as int) =~= s@.skip(i + pat.len()));
                assert(out@ + replace_all(s@.skip(i + pat.len()), pat@, rep@) =~= replace_all(s@, pat@, rep@));
            }
            i = i + pat.len();
        } else {
            out.push(s[i]);
            proof {
                assert(rest.skip(1) =~= s@.skip(i + 1));
                assert(rest[0] == s@[i as int]);
                assert(out@ + replace_all(s@.skip(i + 1), pat@, rep@) =~= replace_all(s@, pat@, rep@));
            }
            i = i + 1;
        }
    }
    proof {
        assert(s@.skip(i as int) =~= Seq::<char>::empty());
        assert(out@ =~= out@ + replace_all(s@.skip(i as int), pat@, rep@));
    }
    out
}

/// The pieces `ls` joined with `sep` between each two.
pub open spec fn joined(ls: Seq<Seq<char>>, sep: char) -> Seq<char>
    decreases ls.len(),
{
    if ls.len() == 0 {
        Seq::<char>::empty()
    } else if ls.len() == 1 {
        ls[0]
    } else {
        joined(ls.drop_last(), sep) + seq![sep] + ls.last()
    }
}

/// The views of a sequence of strings.
pub open spec fn views(v: Seq<String>) -> Seq<Seq<char>> {
    v.map_values(|s: String| s@)
}

/// The strings `parts` joined with `sep` between each two.
pub fn join_strings(parts: &Vec<String>, sep: char) -> (r: Vec<char>)
    ensures
        r@ == joined(views(parts@), sep),
{
    let ghost ps = views(parts@);
    let mut out: Vec<char> = Vec::new();
    let mut i: usize = 0;
    proof {
        assert(ps.take(0) =~= Seq::<Seq<char>>::empty());
    }
    while i < parts.len()
        invariant
            i <= parts.len(),
            ps == views(parts@),
            out@ == joined(ps.take(i as int), sep),
        decreases parts.len() - i,
    {
        proof {
            assert(ps.take(i + 1).drop_last() =~= ps.take(i as int));
            assert(ps.take(i + 1).last() == parts@[i as int]@);
        }
        if i > 0 {
            out.push(sep);
        }
        push_all(&mut out, &chars_of(parts[i].as_str()));
        i = i + 1;
    }
    proof {
        assert(ps.take(i as int) =~= ps);
    }
    out
}

/// No piece of a split holds the separator.
pub proof fn lemma_split_pieces_free(s: Seq<char>, sep: char)
    ensures
        forall|i: int| 0 <= i < split_on(s, sep).len() ==> !(#[trigger] split_on(s, sep)[i]).contains(sep),
    decreases s.len(),
{
    if s.len() > 0 {
        let init = split_on(s.drop_last(), sep);
        lemma_split_pieces_free(s.drop_last(), sep);
        lemma_split_on_nonempty(s.drop_last(), sep);
        if s.last() != sep {
            let grown = init.last().push(s.last());
            assert(!grown.contains(sep)) by {
                if grown.contains(sep) {
                    let k = choose|k: int| 0 <= k < grown.len() && grown[k] == sep;
                    assert(init.last()[k] == sep);
                }
            }
            assert forall|i: int| 0 <= i < split_on(s, sep).len() implies !(#[trigger] split_on(s, sep)[i]).contains(sep) by {
                if i < init.len() - 1 {
                    assert(split_on(s, sep)[i] == init[i]);
                }
            }
        } else {
            assert forall|i: int| 0 <= i < split_on(s, sep).len() implies !(#[trigger] split_on(s, sep)[i]).contains(sep) by {
                if i < init.len() {
                    assert(split_on(s, sep)[i] == init[i]);
                }
            }
        }
    }
}

proof fn lemma_split_append_free(x: Seq<char>, y: Seq<char>, sep: char)
    requires
        !y.contains(sep),
    ensures
        split_on(x + y, sep) == split_on(x, sep).update(
            split_on(x, sep).len() - 1,
            split_on(x, sep).last() + y,
        ),
    decreases y.len(),
{
    lemma_split_on_nonempty(x, sep);
    let p = split_on(x, sep);
    if y.len() == 0 {
        assert(x + y =~= x);
        assert(p.update(p.len() - 1, p.last() + y) =~= p);
    } else {
        let y0 = y.drop_last();
        assert(!y0.contains(sep)) by {
            if y0.contains(sep) {
                let k = choose|k: int| 0 <= k < y0.len() && y0[k] == sep;
                assert(y[k] == sep);
            }
        }
        assert(y[y.len() - 1] != sep);
        lemma_split_append_free(x, y0, sep);
        assert((x + y).drop_last() =~= x + y0);
        assert((x + y).last() == y.last());
        assert((p.last() + y0).push(y.last()) =~= p.last() + y);
        assert(split_on(x + y, sep) =~= p.update(p.len() - 1, p.last() + y));
    }
}

/// Splitting pieces joined by a separator that none of them holds gives them back.
pub proof fn lemma_split_joined(ls: Seq<Seq<char>>, sep: char)
    requires
        ls.len() > 0,
        forall|i: int| 0 <= i < ls.len() ==> !(#[trigger] ls[i]).contains(sep),
    ensures
        split_on(joined(ls, sep), sep) == ls,
    decreases ls.len(),
{
    let empty = Seq::<char>::empty();
    if ls.len() == 1 {
        lemma_split_append_free(empty, ls[0], sep);
        assert(empty + ls[0] =~= ls[0]);
        assert(split_on(empty, sep).update(0, empty + ls[0]) =~= ls);
    } else {
        let init = ls.drop_last();
        assert forall|i: int| 0 <= i < init.len() implies !(#[trigger] init[i]).contains(sep) by {
            assert(init[i] == ls[i]);
        }
        lemma_split_joined(init, sep);
        let x = joined(init, sep) + seq![sep];
        assert(x.drop_last() =~= joined(init, sep));
        assert(split_on(x, sep) == init.push(empty));
        assert(ls[ls.len() - 1] == ls.last());
        lemma_split_append_free(x, ls.last(), sep);
        assert(init.push(empty).update(init.len() as int, empty + ls.last()) =~= ls);
        assert(joined(ls, sep) == x + ls.last());
    }
}

} // verus!
