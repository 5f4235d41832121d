//! Listings of directories that have no index document: a heading naming the
//! directory, then one link line per entry.

use vstd::prelude::*;
use vstd::relations::{sorted_by, total_ordering};
use vstd::seq_lib::lemma_sorted_unique;
use crate::text::{chars_of, join_strings, joined, push_all, seqs, string_of, views};

verus! {

/// The heading line of a listing.
pub open spec fn heading(name: Seq<char>) -> Seq<char> {
    seq!['#', ' '] + name + seq!['\n']
}

/// The site path of `entry` in the directory reached by `segs`, without the
/// leading `/`.
pub open spec fn link_path(segs: Seq<Seq<char>>, entry: Seq<char>) -> Seq<char> {
    joined(segs.push(entry), '/')
}

/// The link line of one entry: its absolute site path, then the same path as label.
pub open spec fn link_line(segs: Seq<Seq<char>>, entry: Seq<char>) -> Seq<char> {
    seq!['=', '>', ' ', '/'] + link_path(segs, entry) + seq![' '] + link_path(segs, entry)
        + seq!['\n']
}

/// The link lines of `entries`, in their order.
pub open spec fn links(segs: Seq<Seq<char>>, entries: Seq<Seq<char>>) -> Seq<char>
    decreases entries.len(),
{
    if entries.len() == 0 {
        Seq::<char>::empty()
    } else {
        links(segs, entries.drop_last()) + link_line(segs, entries.last())
    }
}

/// A listing depends on which entries the directory holds, not on the order
/// in which they were enumerated.
pub proof fn lemma_listing_ignores_order(
    name: Seq<char>,
    segs: Seq<Seq<char>>,
    a: Seq<Seq<char>>,
    b: Seq<Seq<char>>,
)
    requires
        a.to_multiset() == b.to_multiset(),
    ensures
        listing(name, segs, a) == listing(name, segs, b),
{
    lemma_name_order_total();
    b.lemma_sort_by_ensures(name_order());
    a.lemma_sort_by_ensures(name_order());
    lemma_sorted_names_unique(a, sorted_names(b));
}

/// Whether name `a` comes no later than `b`: compared character by character,
/// by code point, a prefix first.
pub open spec fn name_leq(a: Seq<char>, b: Seq<char>) -> bool
    decreases a.len(),
{
    if a.len() == 0 {
        true
    } else if b.len() == 0 {
        false
    } else if a[0] != b[0] {
        (a[0] as int) < (b[0] as int)
    } else {
        name_leq(a.skip(1), b.skip(1))
    }
}

/// The order in which listings show entries.
pub open spec fn name_order() -> spec_fn(Seq<char>, Seq<char>) -> bool {
    |a: Seq<char>, b: Seq<char>| name_leq(a, b)
}

/// `entries` in name order.
pub open spec fn sorted_names(entries: Seq<Seq<char>>) -> Seq<Seq<char>> {
    entries.sort_by(name_order())
}

/// The listing of the directory `name`, reached by `segs`, with these entries
/// in name order.
pub open spec fn listing(name: Seq<char>, segs: Seq<Seq<char>>, entries: Seq<Seq<char>>) -> Seq<char> {
    heading(name) + links(segs, sorted_names(entries))
}

proof fn lemma_name_leq_reflexive(a: Seq<char>)
    ensures
        name_leq(a, a),
    decreases a.len(),
{
    if a.len() > 0 {
        lemma_name_leq_reflexive(a.skip(1));
    }
}

proof fn lemma_name_leq_antisymmetric(a: Seq<char>, b: Seq<char>)
    requires
        name_leq(a, b),
        name_leq(b, a),
    ensures
        a == b,
    decreases a.len(),
{
    if a.len() == 0 {
        assert(b.len() == 0);
        assert(a =~= b);
    } else {
        assert(b.len() > 0);
        assert(a[0] == b[0]);
        lemma_name_leq_antisymmetric(a.skip(1), b.skip(1));
        assert(a =~= seq![a[0]] + a.skip(1));
        assert(b =~= seq![b[0]] + b.skip(1));
    }
}

proof fn lemma_name_leq_transitive(a: Seq<char>, b: Seq<char>, c: Seq<char>)
    requires
        name_leq(a, b),
        name_leq(b, c),
    ensures
        name_leq(a, c),
    decreases a.len(),
{
    if a.len() > 0 {
        assert(b.len() > 0);
        assert(c.len() > 0);
        if a[0] == b[0] && b[0] == c[0] {
            lemma_name_leq_transitive(a.skip(1), b.skip(1), c.skip(1));
        }
    }
}

proof fn lemma_name_leq_connected(a: Seq<char>, b: Seq<char>)
    ensures
        name_leq(a, b) || name_leq(b, a),
    decreases a.len(),
{
    if a.len() > 0 && b.len() > 0 {
        if a[0] == b[0] {
            lemma_name_leq_connected(a.skip(1), b.skip(1));
        } else {
            assert((a[0] as int) != (b[0] as int));
        }
    }
}

/// Name order is a total order.
pub proof fn lemma_name_order_total()
    ensures
        total_ordering(name_order()),
{
    let leq = name_order();
    assert forall|x: Seq<char>| #[trigger] leq(x, x) by {
        lemma_name_leq_reflexive(x);
    }
    assert forall|x: Seq<char>, y: Seq<char>| #[trigger] leq(x, y) && #[trigger] leq(y, x) implies x == y by {
        lemma_name_leq_antisymmetric(x, y);
    }
    assert forall|x: Seq<char>, y: Seq<char>, z: Seq<char>| #[trigger] leq(x, y) && #[trigger] leq(y, z) implies leq(x, z) by {
        lemma_name_leq_transitive(x, y, z);
    }
    assert forall|x: Seq<char>, y: Seq<char>| #[trigger] leq(x, y) || #[trigger] leq(y, x) by {
        lemma_name_leq_connected(x, y);
    }
}

/// A sequence of names in name order that holds the same names as `entries`
/// is their sorted form.
pub proof fn lemma_sorted_names_unique(entries: Seq<Seq<char>>, s: Seq<Seq<char>>)
    requires
        sorted_by(s, name_order()),
        s.to_multiset() == entries.to_multiset(),
    ensures
        s == sorted_names(entries),
{
    lemma_name_order_total();
    entries.lemma_sort_by_ensures(name_order());
    lemma_sorted_unique(s, sorted_names(entries), name_order());
}

/// Whether name `a` comes no later than `b`.
fn name_le(a: &Vec<char>, b: &Vec<char>) -> (r: bool)
    ensures
        r == name_leq(a@, b@),
{
    let mut i: usize = 0;
    proof {
        assert(a@.skip(0) =~= a@);
        assert(b@.skip(0) =~= b@);
    }
    while i < a.len() && i < b.len() && a[i] == b[i]
        invariant
            i <= a.len(),
            i <= b.len(),
            name_leq(a@.skip(i as int), b@.skip(i as int)) == name_leq(a@, b@),
        decreases a.len() - i,
    {
        proof {
            assert(a@.skip(i as int).skip(1) =~= a@.skip(i + 1));
            assert(b@.skip(i as int).skip(1) =~= b@.skip(i + 1));
        }
        i = i + 1;
    }
    if i == a.len() {
        true
    } else if i == b.len() {
        false
    } else {
        a[i] < b[i]
    }
}

/// The entries in name order.
pub fn sort_names(entries: &Vec<String>) -> (r: Vec<String>)
    ensures
        views(r@) == sorted_names(views(entries@)),
{
    let ghost es = views(entries@);
    let ghost leq = name_order();
    proof {
        lemma_name_order_total();
    }
    let mut out: Vec<String> = Vec::new();
    let mut keys: Vec<Vec<char>> = Vec::new();
    let mut i: usize = 0;
    proof {
        assert(es.take(0) =~= Seq::<Seq<char>>::empty());
        assert(views(out@) =~= Seq::<Seq<char>>::empty());
    }
    while i < entries.len()
        invariant
            i <= entries.len(),
            es == views(entries@),
            leq == name_order(),
            total_ordering(leq),
            views(out@) == seqs(keys@),
            out.len() == keys.len(),
            sorted_by(views(out@), leq),
            views(out@).to_multiset() == es.take(i as int).to_multiset(),
        decreases entries.len() - i,
    {
        let key = chars_of(entries[i].as_str());
        let mut pos: usize = 0;
        while pos < keys.len() && name_le(&keys[pos], &key)
            invariant
                pos <= keys.len(),
                views(out@) == seqs(keys@),
                forall|k: int| 0 <= k < pos ==> #[trigger] name_leq(seqs(keys@)[k], key@),
            decreases keys.len() - pos,
        {
            pos = pos + 1;
        }
        let ghost old_view = views(out@);
        let ghost old_keys = seqs(keys@);
        proof {
            if pos < keys.len() {
                assert(!name_leq(old_keys[pos as int], key@));
                lemma_name_leq_connected(old_keys[pos as int], key@);
                assert(old_view[pos as int] == old_keys[pos as int]);
                assert(leq(key@, old_view[pos as int]));
                assert forall|k: int| pos <= k < old_view.len() implies #[trigger] leq(key@, old_view[k]) by {
                    if k > pos {
                        assert(leq(old_view[pos as int], old_view[k]));
                    }
                }
            }
        }
        out.insert(pos, entries[i].clone());
        keys.insert(pos, key);
        proof {
            let nv = old_view.insert(pos as int, key@);
            assert(out.len() == keys.len());
            assert(views(out@) =~= nv);
            assert(seqs(keys@) =~= nv);
            assert forall|x: int, y: int| 0 <= x < y < nv.len() implies #[trigger] leq(nv[x], nv[y]) by {
                if y < pos {
                } else if y == pos {
                    assert(nv[x] == old_view[x]);
                } else if x < pos {
                    assert(nv[y] == old_view[y - 1]);
                    assert(leq(old_view[x], key@));
                    assert(leq(key@, old_view[y - 1]));
                } else if x == pos {
                    assert(nv[y] == old_view[y - 1]);
                } else {
                    assert(nv[x] == old_view[x - 1]);
                    assert(nv[y] == old_view[y - 1]);
                }
            }
            assert(es.take(i + 1) =~= es.take(i as int).push(es[i as int]));
            vstd::seq_lib::to_multiset_build(es.take(i as int), es[i as int]);
            vstd::seq_lib::to_multiset_insert(old_view, pos as int, key@);
        }
        i = i + 1;
    }
    proof {
        assert(es.take(i as int) =~= es);
        lemma_sorted_names_unique(es, views(out@));
    }
    out
}

/// Writes the listing of a directory: `name` for its heading, `segments` its
/// path below the content root, `entries` the names of what it holds.
pub fn directory_listing(name: &str, segments: &Vec<String>, entries: &Vec<String>) -> (r: String)
    ensures
        r@ == listing(name@, views(segments@), views(entries@)),
{
    let ghost segs = views(segments@);
    let mut out: Vec<char> = vec!['#', ' '];
    push_all(&mut out, &chars_of(name));
    out.push('\n');
    let prefix = join_strings(segments, '/');
    let sorted = sort_names(entries);
    let ghost es = views(sorted@);
    let mut i: usize = 0;
    proof {
        assert(out@ =~= heading(name@));
        assert(es.take(0) =~= Seq::<Seq<char>>::empty());
    }
    while i < sorted.len()
        invariant
            i <= sorted.len(),
            es == views(sorted@),
            segs == views(segments@),
            prefix@ == joined(segs, '/'),
            out@ == heading(name@) + links(segs, es.take(i as int)),
        decreases sorted.len() - i,
    {
        let entry = chars_of(sorted[i].as_str());
        let mut path: Vec<char> = Vec::new();
        if segments.len() > 0 {
            push_all(&mut path, &prefix);
            path.push('/');
        }
        push_all(&mut path, &entry);
        proof {
            let ps = segs.push(entry@);
            assert(ps.drop_last() =~= segs);
            assert(path@ == link_path(segs, entry@));
        }
        let ghost before = out@;
        out.push('=');
        out.push('>');
        out.push(' ');
        out.push('/');
        push_all(&mut out, &path);
        out.push(' ');
        push_all(&mut out, &path);
        out.push('\n');
        proof {
            assert(out@ =~= before + link_line(segs, entry@));
            assert(es.take(i + 1).drop_last() =~= es.take(i as int));
            assert(es.take(i + 1).last() == entry@);
        }
        i = i + 1;
    }
    proof {
        assert(es.take(i as int) =~= es);
    }
    string_of(&out)
}

} // verus!
