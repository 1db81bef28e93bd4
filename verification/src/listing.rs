//! Directory listings: filtering, ordering and rendering of a directory's
//! children.
//!
//! Entries are ordered directories first, then lexicographically by name
//! within each group; excluded and hidden names are dropped.

use vstd::prelude::*;
use crate::path_rules::name_excluded;
use crate::path_rules::is_file_name_ignored;

verus! {

/// One direct child of a directory: its name and whether it is itself a
/// directory.
#[derive(Debug)]
pub struct DirEntryInfo {
    pub name: String,
    pub is_dir: bool,
}

impl View for DirEntryInfo {
    type V = (Seq<char>, bool);

    open spec fn view(&self) -> (Seq<char>, bool) {
        (self.name@, self.is_dir)
    }
}

impl DeepView for DirEntryInfo {
    type V = (Seq<char>, bool);

    open spec fn deep_view(&self) -> (Seq<char>, bool) {
        self@
    }
}

/// Lexicographic order on names by scalar value, shorter prefixes first.
pub open spec fn lex_le(a: Seq<char>, b: Seq<char>) -> bool
    decreases a.len(),
{
    if a.len() == 0 {
        true
    } else if b.len() == 0 {
        false
    } else if a[0] < b[0] {
        true
    } else if b[0] < a[0] {
        false
    } else {
        lex_le(a.drop_first(), b.drop_first())
    }
}

/// Sort rank of an entry kind: directories come before files.
pub open spec fn kind_rank(is_dir: bool) -> int {
    if is_dir {
        0
    } else {
        1
    }
}

/// The listing order: directories before files, ties broken by name.
pub open spec fn entry_le(a: (Seq<char>, bool), b: (Seq<char>, bool)) -> bool {
    kind_rank(a.1) < kind_rank(b.1) || (a.1 == b.1 && lex_le(a.0, b.0))
}

/// `lex_le` relates every pair of names, one way or the other.
pub proof fn lemma_lex_le_total(a: Seq<char>, b: Seq<char>)
    ensures
        lex_le(a, b) || lex_le(b, a),
    decreases a.len(),
{
    if a.len() > 0 && b.len() > 0 && a[0] == b[0] {
        lemma_lex_le_total(a.drop_first(), b.drop_first());
    }
}

/// Names related both ways by `lex_le` are equal.
pub proof fn lemma_lex_le_antisymmetric(a: Seq<char>, b: Seq<char>)
    requires
        lex_le(a, b),
        lex_le(b, a),
    ensures
        a == b,
    decreases a.len(),
{
    if a.len() > 0 && b.len() > 0 {
        assert(a[0] == b[0]);
        lemma_lex_le_antisymmetric(a.drop_first(), b.drop_first());
        assert(a =~= seq![a[0]] + a.drop_first());
        assert(b =~= seq![b[0]] + b.drop_first());
    } else {
        assert(a.len() == 0 && b.len() == 0);
        assert(a =~= b);
    }
}

/// `lex_le` is transitive.
pub proof fn lemma_lex_le_transitive(a: Seq<char>, b: Seq<char>, c: Seq<char>)
    requires
        lex_le(a, b),
        lex_le(b, c),
    ensures
        lex_le(a, c),
    decreases a.len(),
{
    if a.len() > 0 && b.len() > 0 && c.len() > 0 && a[0] == b[0] && b[0] == c[0] {
        lemma_lex_le_transitive(a.drop_first(), b.drop_first(), c.drop_first());
    }
}

/// The listing order relates every pair of entries.
pub proof fn lemma_entry_le_total(a: (Seq<char>, bool), b: (Seq<char>, bool))
    ensures
        entry_le(a, b) || entry_le(b, a),
{
    if a.1 == b.1 {
        lemma_lex_le_total(a.0, b.0);
    }
}

/// Entries related both ways by the listing order are equal.
pub proof fn lemma_entry_le_antisymmetric(a: (Seq<char>, bool), b: (Seq<char>, bool))
    requires
        entry_le(a, b),
        entry_le(b, a),
    ensures
        a == b,
{
    assert(a.1 == b.1);
    lemma_lex_le_antisymmetric(a.0, b.0);
}

/// The listing order is transitive.
pub proof fn lemma_entry_le_transitive(a: (Seq<char>, bool), b: (Seq<char>, bool), c: (Seq<char>, bool))
    requires
        entry_le(a, b),
        entry_le(b, c),
    ensures
        entry_le(a, c),
{
    if a.1 == b.1 && b.1 == c.1 {
        lemma_lex_le_transitive(a.0, b.0, c.0);
    }
}

/// Whether `a` comes no later than `b` in the listing order.
pub fn entry_le_exec(a: &DirEntryInfo, b: &DirEntryInfo) -> (r: bool)
    ensures
        r == entry_le(a@, b@),
{
    if a.is_dir && !b.is_dir {
        true
    } else if !a.is_dir && b.is_dir {
        false
    } else {
        lex_le_exec(a.name.as_str(), b.name.as_str())
    }
}

/// Whether `a` is lexicographically no greater than `b`.
pub fn lex_le_exec(a: &str, b: &str) -> (r: bool)
    ensures
        r == lex_le(a@, b@),
{
    let an = a.unicode_len();
    let bn = b.unicode_len();
    let mut i: usize = 0;
    proof {
        assert(a@.skip(0) =~= a@);
        assert(b@.skip(0) =~= b@);
    }
    loop
        invariant
            an == a@.len(),
            bn == b@.len(),
            i <= an,
            i <= bn,
            lex_le(a@, b@) == lex_le(a@.skip(i as int), b@.skip(i as int)),
        decreases an - i,
    {
        if i == an {
            assert(a@.skip(i as int).len() == 0);
            return true;
        }
        if i == bn {
            assert(b@.skip(i as int).len() == 0);
            assert(a@.skip(i as int).len() > 0);
            return false;
        }
        let ca = a.get_char(i);
        let cb = b.get_char(i);
        assert(a@.skip(i as int)[0] == a@[i as int]);
        assert(b@.skip(i as int)[0] == b@[i as int]);
        if ca < cb {
            return true;
        }
        if cb < ca {
            return false;
        }
        proof {
            assert(a@.skip(i as int).drop_first() =~= a@.skip(i + 1));
            assert(b@.skip(i as int).drop_first() =~= b@.skip(i + 1));
        }
        i = i + 1;
    }
}

/// The sequence of entries is in listing order.
pub open spec fn entries_sorted(s: Seq<(Seq<char>, bool)>) -> bool {
    forall|x: int, y: int| 0 <= x < y < s.len() ==> entry_le(#[trigger] s[x], #[trigger] s[y])
}

/// Places one entry at its position in an already ordered vector.
fn insert_sorted(out: &mut Vec<DirEntryInfo>, e: DirEntryInfo)
    requires
        entries_sorted(old(out).deep_view()),
    ensures
        entries_sorted(final(out).deep_view()),
        final(out).deep_view().to_multiset() == old(out).deep_view().to_multiset().insert(e@),
        final(out)@.len() == old(out)@.len() + 1,
{
    broadcast use vstd::seq_lib::group_to_multiset_ensures;

    let ghost od = out.deep_view();
    let n = out.len();
    let mut k: usize = 0;
    while k < n && entry_le_exec(&out[k], &e)
        invariant
            n == out.len(),
            k <= n,
            out.deep_view() == od,
            forall|m: int| 0 <= m < k ==> entry_le(#[trigger] od[m], e@),
        decreases n - k,
    {
        k = k + 1;
    }
    proof {
        if k < n {
            lemma_entry_le_total(od[k as int], e@);
            assert(entry_le(e@, od[k as int]));
        }
    }
    out.insert(k, e);
    proof {
        let nd = out.deep_view();
        assert(out@ =~= old(out)@.insert(k as int, e));
        old(out)@.insert_ensures(k as int, e);
        assert(nd =~= od.insert(k as int, e@)) by {
            od.insert_ensures(k as int, e@);
            assert(forall|i: int|
                0 <= i < nd.len() ==> nd[i] == #[trigger] od.insert(k as int, e@)[i]);
        }
        assert(entries_sorted(nd)) by {
            od.insert_ensures(k as int, e@);
            assert(forall|x: int, y: int|
                0 <= x < y < nd.len() ==> entry_le(#[trigger] nd[x], #[trigger] nd[y])) by {
                assert forall|x: int, y: int| 0 <= x < y < nd.len() implies entry_le(
                    #[trigger] nd[x],
                    #[trigger] nd[y],
                ) by {
                    if y < k {
                        assert(nd[x] == od[x] && nd[y] == od[y]);
                    } else if y == k {
                        assert(nd[y] == e@ && nd[x] == od[x]);
                    } else {
                        // y > k, so nd[y] == od[y - 1]
                        if x < k {
                            assert(nd[x] == od[x]);
                            if x < y - 1 {
                                assert(entry_le(od[x], od[y - 1]));
                            }
                        } else if x == k {
                            assert(nd[x] == e@);
                            assert(entry_le(e@, od[k as int]));
                            if k < y - 1 {
                                assert(entry_le(od[k as int], od[y - 1]));
                                lemma_entry_le_transitive(e@, od[k as int], od[y - 1]);
                            }
                        } else {
                            assert(nd[x] == od[x - 1] && nd[y] == od[y - 1]);
                        }
                    }
                }
            }
        }
    }
}

/// Orders entries directories first, then by name, keeping exactly the same
/// collection of entries.
pub fn sort_entries(entries: Vec<DirEntryInfo>) -> (r: Vec<DirEntryInfo>)
    ensures
        entries_sorted(r.deep_view()),
        r.deep_view().to_multiset() == entries.deep_view().to_multiset(),
{
    broadcast use vstd::seq_lib::group_to_multiset_ensures;

    let mut rest = entries;
    let mut out: Vec<DirEntryInfo> = Vec::new();
    proof {
        assert(out.deep_view() =~= Seq::<(Seq<char>, bool)>::empty());
        assert(out.deep_view().to_multiset().add(rest.deep_view().to_multiset())
            =~= entries.deep_view().to_multiset());
    }
    loop
        invariant
            entries_sorted(out.deep_view()),
            out.deep_view().to_multiset().add(rest.deep_view().to_multiset())
                == entries.deep_view().to_multiset(),
        decreases rest@.len(),
    {
        let ghost rd = rest.deep_view();
        let popped = rest.pop();
        match popped {
            None => {
                proof {
                    broadcast use vstd::seq_lib::group_to_multiset_ensures;

                    assert(rd.len() == 0);
                    assert(rd.to_multiset().len() == 0);
                    assert(out.deep_view().to_multiset() =~= out.deep_view().to_multiset().add(
                        rd.to_multiset(),
                    ));
                }
                return out;
            },
            Some(e) => {
                proof {
                    broadcast use vstd::seq_lib::group_to_multiset_ensures;

                    assert(rest.deep_view() =~= rd.drop_last());
                    assert(rd =~= rd.drop_last().push(e@));
                    assert(rd.to_multiset() =~= rest.deep_view().to_multiset().insert(e@));
                }
                let ghost before = out.deep_view();
                insert_sorted(&mut out, e);
                proof {
                    assert(out.deep_view().to_multiset().add(rest.deep_view().to_multiset())
                        =~= before.to_multiset().add(rd.to_multiset()));
                }
            },
        }
    }
}

/// An entry survives filtering when its name is neither configured as
/// excluded nor hidden.
pub open spec fn entry_kept(e: (Seq<char>, bool), excluded: Seq<Seq<char>>) -> bool {
    !name_excluded(e.0, excluded)
}

/// The filtering predicate as a value, shared by every contract that
/// speaks about kept entries.
pub open spec fn keep_pred(excluded: Seq<Seq<char>>) -> spec_fn((Seq<char>, bool)) -> bool {
    |e: (Seq<char>, bool)| entry_kept(e, excluded)
}

/// The children that survive filtering, in their incoming order.
pub open spec fn kept_entries(
    children: Seq<(Seq<char>, bool)>,
    excluded: Seq<Seq<char>>,
) -> Seq<(Seq<char>, bool)> {
    children.filter(keep_pred(excluded))
}

proof fn lemma_filter_singleton<A>(e: A, pred: spec_fn(A) -> bool)
    ensures
        seq![e].filter(pred) == (if pred(e) {
            seq![e]
        } else {
            Seq::<A>::empty()
        }),
{
    reveal_with_fuel(Seq::filter, 2);
    assert(seq![e].drop_last() =~= Seq::<A>::empty());
    assert(seq![e].last() == e);
    if pred(e) {
        assert(seq![e].filter(pred) =~= seq![e]);
    } else {
        assert(seq![e].filter(pred) =~= Seq::<A>::empty());
    }
}

/// Drops every excluded or hidden entry, keeping the rest in order.
pub fn filter_entries(entries: Vec<DirEntryInfo>, excluded_files: &Vec<String>) -> (r: Vec<
    DirEntryInfo,
>)
    ensures
        r.deep_view() == kept_entries(entries.deep_view(), excluded_files.deep_view()),
{
    let ghost x = excluded_files.deep_view();
    let mut rest = entries;
    let mut out: Vec<DirEntryInfo> = Vec::new();
    let ghost mut done: Seq<(Seq<char>, bool)> = Seq::empty();
    proof {
        reveal(Seq::filter);
        assert(out.deep_view() =~= kept_entries(done, x));
        assert(done + rest.deep_view() =~= entries.deep_view());
    }
    loop
        invariant
            x == excluded_files.deep_view(),
            done + rest.deep_view() == entries.deep_view(),
            out.deep_view() == kept_entries(done, x),
        decreases rest@.len(),
    {
        if rest.is_empty() {
            proof {
                assert(rest.deep_view() =~= Seq::<(Seq<char>, bool)>::empty());
                assert(done =~= entries.deep_view());
            }
            return out;
        }
        let ghost rd = rest.deep_view();
        let e = rest.remove(0);
        proof {
            assert(rest.deep_view() =~= rd.drop_first());
            assert(rd =~= seq![e@] + rd.drop_first());
            assert(done.push(e@) + rest.deep_view() =~= entries.deep_view());
        }
        let keep = !is_file_name_ignored(&e.name, excluded_files);
        proof {
            let p = keep_pred(x);
            assert(p(e@) == keep);
            lemma_filter_singleton(e@, p);
            Seq::filter_distributes_over_add(done, seq![e@], p);
            assert(done.push(e@) =~= done + seq![e@]);
            if keep {
                assert(kept_entries(done.push(e@), x) =~= kept_entries(done, x).push(e@));
            } else {
                assert(kept_entries(done.push(e@), x) =~= kept_entries(done, x));
            }
        }
        if keep {
            out.push(e);
            proof {
                assert(out.deep_view() =~= kept_entries(done.push(e@), x));
            }
        }
        proof {
            done = done.push(e@);
        }
    }
}

/// Builds the listing for one directory: exactly the non-excluded,
/// non-hidden children, ordered directories first and by name within
/// each group.
pub fn build_listing(entries: Vec<DirEntryInfo>, excluded_files: &Vec<String>) -> (r: Vec<
    DirEntryInfo,
>)
    ensures
        entries_sorted(r.deep_view()),
        r.deep_view().to_multiset() == kept_entries(
            entries.deep_view(),
            excluded_files.deep_view(),
        ).to_multiset(),
{
    let kept = filter_entries(entries, excluded_files);
    sort_entries(kept)
}

proof fn lemma_filter_subset<A>(s: Seq<A>, pred: spec_fn(A) -> bool)
    ensures
        forall|a: A| #[trigger] s.filter(pred).contains(a) ==> s.contains(a),
    decreases s.len(),
{
    reveal(Seq::filter);
    if s.len() > 0 {
        let d = s.drop_last();
        lemma_filter_subset(d, pred);
        assert forall|a: A| #[trigger] s.filter(pred).contains(a) implies s.contains(a) by {
            if a == s.last() {
                assert(s[s.len() - 1] == a);
            } else {
                let f = s.filter(pred);
                let j = choose|j: int| 0 <= j < f.len() && f[j] == a;
                assert(d.filter(pred).contains(a)) by {
                    if pred(s.last()) {
                        assert(f == d.filter(pred).push(s.last()));
                        assert(j < f.len() - 1);
                        assert(d.filter(pred)[j] == a);
                    } else {
                        assert(f == d.filter(pred));
                    }
                }
                assert(d.contains(a));
                let m = choose|m: int| 0 <= m < d.len() && d[m] == a;
                assert(s[m] == a);
            }
        }
    }
}

proof fn lemma_filter_no_duplicates<A>(s: Seq<A>, pred: spec_fn(A) -> bool)
    requires
        s.no_duplicates(),
    ensures
        s.filter(pred).no_duplicates(),
    decreases s.len(),
{
    reveal(Seq::filter);
    if s.len() > 0 {
        let d = s.drop_last();
        assert(d.no_duplicates());
        lemma_filter_no_duplicates(d, pred);
        lemma_filter_subset(d, pred);
        if pred(s.last()) {
            assert(!d.filter(pred).contains(s.last())) by {
                if d.contains(s.last()) {
                    let m = choose|m: int| 0 <= m < d.len() && d[m] == s.last();
                    assert(s[m] == s[s.len() - 1]);
                    assert(false);
                }
            }
            assert(s.filter(pred) == d.filter(pred).push(s.last()));
            assert forall|i: int, j: int|
                0 <= i < s.filter(pred).len() && 0 <= j < s.filter(pred).len() && i
                    != j implies s.filter(pred)[i] != s.filter(pred)[j] by {
                let f = s.filter(pred);
                let df = d.filter(pred);
                if i < f.len() - 1 && j < f.len() - 1 {
                    assert(df[i] != df[j]);
                } else if i == f.len() - 1 {
                    assert(f[j] == df[j]);
                    assert(df.contains(df[j]));
                } else {
                    assert(f[i] == df[i]);
                    assert(df.contains(df[i]));
                }
            }
        }
    }
}

/// Law: an ordered listing whose contents agree, as a collection, with the
/// filtered children holds exactly the non-excluded, non-hidden children of
/// the directory, each exactly once.
pub proof fn lemma_listing_exact(
    children: Seq<(Seq<char>, bool)>,
    excluded: Seq<Seq<char>>,
    listing: Seq<(Seq<char>, bool)>,
)
    requires
        children.no_duplicates(),
        entries_sorted(listing),
        listing.to_multiset() == kept_entries(children, excluded).to_multiset(),
    ensures
        forall|e: (Seq<char>, bool)| #[trigger]
            listing.contains(e) <==> children.contains(e) && !name_excluded(e.0, excluded),
        listing.no_duplicates(),
{
    broadcast use vstd::seq_lib::group_to_multiset_ensures;

    let p = keep_pred(excluded);
    let kept = kept_entries(children, excluded);
    lemma_filter_subset(children, p);
    lemma_filter_no_duplicates(children, p);
    assert forall|e: (Seq<char>, bool)| #[trigger]
        listing.contains(e) <==> children.contains(e) && !name_excluded(e.0, excluded) by {
        assert(listing.contains(e) <==> listing.to_multiset().count(e) > 0);
        assert(kept.contains(e) <==> kept.to_multiset().count(e) > 0);
        if kept.contains(e) {
            let j = choose|j: int| 0 <= j < kept.len() && kept[j] == e;
            assert(p(kept[j])) by {
                children.lemma_filter_pred(p, j);
            }
        }
        if children.contains(e) && !name_excluded(e.0, excluded) {
            let i = choose|i: int| 0 <= i < children.len() && children[i] == e;
            children.lemma_filter_contains(p, i);
        }
    }
    assert(listing.no_duplicates()) by {
        kept.lemma_multiset_has_no_duplicates();
        listing.lemma_multiset_has_no_duplicates_conv();
    }
}

/// Law: the listing order is total, so a directory has exactly one ordered
/// listing; any two ordered arrangements of the same entries are equal.
pub proof fn lemma_listing_unique(a: Seq<(Seq<char>, bool)>, b: Seq<(Seq<char>, bool)>)
    requires
        entries_sorted(a),
        entries_sorted(b),
        a.to_multiset() == b.to_multiset(),
    ensures
        a == b,
{
    let leq = (|x: (Seq<char>, bool), y: (Seq<char>, bool)| entry_le(x, y));
    assert(vstd::relations::total_ordering(leq)) by {
        assert forall|x: (Seq<char>, bool)| #[trigger] leq(x, x) by {
            lemma_entry_le_total(x, x);
        }
        assert forall|x: (Seq<char>, bool), y: (Seq<char>, bool)|
            #[trigger] leq(x, y) && #[trigger] leq(y, x) implies x == y by {
            lemma_entry_le_antisymmetric(x, y);
        }
        assert forall|x: (Seq<char>, bool), y: (Seq<char>, bool), z: (Seq<char>, bool)|
            #[trigger] leq(x, y) && #[trigger] leq(y, z) implies leq(x, z) by {
            lemma_entry_le_transitive(x, y, z);
        }
        assert forall|x: (Seq<char>, bool), y: (Seq<char>, bool)|
            #[trigger] leq(x, y) || #[trigger] leq(y, x) by {
            lemma_entry_le_total(x, y);
        }
    }
    assert(vstd::relations::sorted_by(a, leq)) by {
        assert forall|i: int, j: int| 0 <= i < j < a.len() implies #[trigger] leq(a[i], a[j]) by {
            assert(entry_le(a[i], a[j]));
        }
    }
    assert(vstd::relations::sorted_by(b, leq)) by {
        assert forall|i: int, j: int| 0 <= i < j < b.len() implies #[trigger] leq(b[i], b[j]) by {
            assert(entry_le(b[i], b[j]));
        }
    }
    vstd::seq_lib::lemma_sorted_unique(a, b, leq);
}

/// The position of the last `/` in the path, or `-1` when there is none.
pub open spec fn last_slash_index(path: Seq<char>) -> int
    decreases path.len(),
{
    if path.len() == 0 {
        -1
    } else if path.last() == '/' {
        path.len() - 1
    } else {
        last_slash_index(path.drop_last())
    }
}

/// The path with every trailing `/` removed.
pub open spec fn strip_trailing_slashes(path: Seq<char>) -> Seq<char>
    decreases path.len(),
{
    if path.len() > 0 && path.last() == '/' {
        strip_trailing_slashes(path.drop_last())
    } else {
        path
    }
}

/// The parent of a normalized path: the path up to its last component, or
/// nothing when the path is the root itself.
pub open spec fn parent_of(path: Seq<char>) -> Option<Seq<char>> {
    let t = strip_trailing_slashes(path);
    if t.len() == 0 {
        Option::None
    } else if last_slash_index(t) <= 0 {
        Option::Some(seq!['/'])
    } else {
        Option::Some(t.subrange(0, last_slash_index(t)))
    }
}

/// Computes the parent link target of a normalized path, or `None` at the
/// sandbox root, where no parent link is rendered.
pub fn parent_path(path: &str) -> (r: Option<String>)
    ensures
        r.deep_view() == parent_of(path@),
{
    let n = path.unicode_len();
    let mut t: usize = n;
    proof {
        assert(path@.subrange(0, n as int) =~= path@);
    }
    while t > 0 && path.get_char(t - 1) == '/'
        invariant
            n == path@.len(),
            t <= n,
            strip_trailing_slashes(path@) == strip_trailing_slashes(
                path@.subrange(0, t as int),
            ),
        decreases t,
    {
        proof {
            assert(path@.subrange(0, t as int).drop_last() =~= path@.subrange(0, t - 1));
        }
        t = t - 1;
    }
    proof {
        assert(strip_trailing_slashes(path@.subrange(0, t as int)) == path@.subrange(
            0,
            t as int,
        ));
    }
    if t == 0 {
        proof {
            assert(strip_trailing_slashes(path@) =~= Seq::<char>::empty());
        }
        return None;
    }
    let ghost ts = path@.subrange(0, t as int);
    let mut j: usize = t;
    while j > 0 && path.get_char(j - 1) != '/'
        invariant
            n == path@.len(),
            j <= t <= n,
            ts == path@.subrange(0, t as int),
            ts.len() > 0,
            last_slash_index(ts) == last_slash_index(path@.subrange(0, j as int)),
        decreases j,
    {
        proof {
            assert(path@.subrange(0, j as int).drop_last() =~= path@.subrange(0, j - 1));
        }
        j = j - 1;
    }
    proof {
        if j > 0 {
            assert(path@.subrange(0, j as int).last() == path@[j - 1]);
            assert(last_slash_index(ts) == j - 1);
        } else {
            assert(path@.subrange(0, 0) =~= Seq::<char>::empty());
            assert(last_slash_index(ts) == -1);
        }
    }
    if j <= 1 {
        let r = String::from_str("/");
        proof {
            reveal_strlit("/");
            assert(r@ =~= seq!['/']);
        }
        Some(r)
    } else {
        let s = path.substring_char(0, j - 1);
        proof {
            assert(s@ =~= ts.subrange(0, last_slash_index(ts)));
        }
        Some(String::from_str(s))
    }
}

/// The page title: the last component of the path, or `/` at the root.
pub open spec fn title_of(path: Seq<char>) -> Seq<char> {
    if crate::path_rules::segments_of(path).len() == 0 {
        seq!['/']
    } else {
        crate::path_rules::segments_of(path).last()
    }
}

/// The `href`-joining separator: nothing at the root, `/` elsewhere.
pub open spec fn entry_sep(rel: Seq<char>) -> Seq<char> {
    if rel == seq!['/'] {
        Seq::empty()
    } else {
        seq!['/']
    }
}

/// The CSS class of an entry.
pub open spec fn entry_class(is_dir: bool) -> Seq<char> {
    if is_dir {
        "dir"@
    } else {
        "file"@
    }
}

/// The visual marker put before a directory's name.
pub open spec fn entry_marker(is_dir: bool) -> Seq<char> {
    if is_dir {
        "\u{1f4c1} "@
    } else {
        Seq::empty()
    }
}

/// One rendered line of the listing.
pub open spec fn entry_line_spec(prefix: Seq<char>, rel: Seq<char>, e: (Seq<char>, bool)) -> Seq<
    char,
> {
    "<li class=\""@ + entry_class(e.1) + "\"><a href=\""@ + prefix + rel + entry_sep(rel) + e.0
        + "\">"@ + entry_marker(e.1) + e.0 + "</a></li>"@
}

/// The rendered lines of all entries, in order.
pub open spec fn entry_lines_spec(
    prefix: Seq<char>,
    rel: Seq<char>,
    entries: Seq<(Seq<char>, bool)>,
) -> Seq<char>
    decreases entries.len(),
{
    if entries.len() == 0 {
        Seq::empty()
    } else {
        entry_lines_spec(prefix, rel, entries.drop_last()) + entry_line_spec(
            prefix,
            rel,
            entries.last(),
        )
    }
}

/// The parent link line, empty at the sandbox root.
pub open spec fn parent_line_spec(prefix: Seq<char>, rel: Seq<char>) -> Seq<char> {
    match parent_of(rel) {
        Option::None => Seq::empty(),
        Option::Some(p) => "<li><a href=\""@ + prefix + p + "\">..</a></li>"@,
    }
}

/// The complete listing page for one directory.
pub open spec fn listing_page_spec(
    rel: Seq<char>,
    prefix: Seq<char>,
    entries: Seq<(Seq<char>, bool)>,
) -> Seq<char> {
    "<!DOCTYPE html>\n<html>\n<head>\n    <title>"@ + title_of(rel)
        + "</title>\n    <meta name=\"viewport\" content=\"width=device-width, initial-scale=1.0\">\n    <meta charset=\"utf-8\">\n    <link rel=\"stylesheet\" href=\"/main.css\">\n</head>\n\n<body>\n    <h1 class=\"title\">"@
        + rel + "</h1>\n\n    <ul class=\"dir-list\">\n        "@ + parent_line_spec(prefix, rel)
        + entry_lines_spec(prefix, rel, entries) + "\n    </ul>\n</body>\n\n</html>"@
}

/// Renders one listing line for an entry.
fn render_entry_line(prefix: &str, rel: &str, sep: &str, e: &DirEntryInfo) -> (r: String)
    requires
        sep@ == entry_sep(rel@),
    ensures
        r@ == entry_line_spec(prefix@, rel@, e@),
{
    let mut r = String::from_str("<li class=\"");
    if e.is_dir {
        r.append("dir");
    } else {
        r.append("file");
    }
    r.append("\"><a href=\"");
    r.append(prefix);
    r.append(rel);
    r.append(sep);
    r.append(e.name.as_str());
    r.append("\">");
    if e.is_dir {
        r.append("\u{1f4c1} ");
    }
    r.append(e.name.as_str());
    r.append("</a></li>");
    proof {
        assert(r@ =~= entry_line_spec(prefix@, rel@, e@));
    }
    r
}

/// Renders the listing page for a directory: the title, the parent link
/// except at the root, and one line per entry in listing order.
pub fn render_listing_page(rel: &str, url_prefix: &str, entries: &Vec<DirEntryInfo>) -> (r:
    String)
    ensures
        r@ == listing_page_spec(rel@, url_prefix@, entries.deep_view()),
{
    let mut r = String::from_str("<!DOCTYPE html>\n<html>\n<head>\n    <title>");
    let segs = crate::path_rules::split_segments(rel);
    if segs.len() == 0 {
        r.append("/");
        proof {
            reveal_strlit("/");
            assert("/"@ =~= title_of(rel@));
        }
    } else {
        let last = segs.len() - 1;
        r.append(segs[last].as_str());
        proof {
            assert(segs.deep_view()[last as int] == title_of(rel@));
        }
    }
    r.append(
        "</title>\n    <meta name=\"viewport\" content=\"width=device-width, initial-scale=1.0\">\n    <meta charset=\"utf-8\">\n    <link rel=\"stylesheet\" href=\"/main.css\">\n</head>\n\n<body>\n    <h1 class=\"title\">",
    );
    r.append(rel);
    r.append("</h1>\n\n    <ul class=\"dir-list\">\n        ");
    let parent = parent_path(rel);
    match parent {
        None => {
            proof {
                assert(parent_line_spec(url_prefix@, rel@) =~= Seq::<char>::empty());
                assert(r@ =~= r@ + parent_line_spec(url_prefix@, rel@));
            }
        },
        Some(p) => {
            r.append("<li><a href=\"");
            r.append(url_prefix);
            r.append(p.as_str());
            r.append("\">..</a></li>");
        },
    }
    let ghost before_lines = r@;
    let is_root = rel.unicode_len() == 1 && rel.get_char(0) == '/';
    proof {
        if is_root {
            assert(rel@ =~= seq!['/']);
        } else {
            assert(rel@ != seq!['/']);
        }
    }
    let sep = if is_root {
        ""
    } else {
        "/"
    };
    proof {
        reveal_strlit("");
        reveal_strlit("/");
        assert(sep@ == entry_sep(rel@));
    }
    let n = entries.len();
    let mut i: usize = 0;
    proof {
        assert(entries.deep_view().subrange(0, 0) =~= Seq::<(Seq<char>, bool)>::empty());
        assert(r@ =~= before_lines + entry_lines_spec(
            url_prefix@,
            rel@,
            entries.deep_view().subrange(0, 0),
        ));
    }
    while i < n
        invariant
            n == entries.len(),
            i <= n,
            sep@ == entry_sep(rel@),
            r@ == before_lines + entry_lines_spec(
                url_prefix@,
                rel@,
                entries.deep_view().subrange(0, i as int),
            ),
        decreases n - i,
    {
        let line = render_entry_line(url_prefix, rel, sep, &entries[i]);
        r.append(line.as_str());
        proof {
            let dv = entries.deep_view();
            assert(dv.subrange(0, i + 1).drop_last() =~= dv.subrange(0, i as int));
            assert(dv.subrange(0, i + 1).last() == dv[i as int]);
            assert(r@ =~= before_lines + entry_lines_spec(
                url_prefix@,
                rel@,
                dv.subrange(0, i + 1),
            ));
        }
        i = i + 1;
    }
    proof {
        assert(entries.deep_view().subrange(0, n as int) =~= entries.deep_view());
    }
    r.append("\n    </ul>\n</body>\n\n</html>");
    proof {
        assert(r@ =~= listing_page_spec(rel@, url_prefix@, entries.deep_view()));
    }
    r
}

} // verus!
