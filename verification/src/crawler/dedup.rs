//! URL deduplication: normalization of URLs (fragment removed, query
//! parameters sorted, the root slash of a bare host dropped) and the set of
//! normalized URLs already seen.
use vstd::prelude::*;
use vstd::relations::{sorted_by, total_ordering};

use crate::error::CrawlError;
use crate::text::{chars_less, chars_of, push_char, push_str, seq_less};
use crate::text::{lemma_seq_less_asymmetric, lemma_seq_less_total, lemma_seq_less_transitive};
use crate::web_url::{clear_fragment, parse_url, path_of, query_of, query_pairs_of, set_query};
use crate::web_url::{opt_view, pair_views, url_parse_result, url_path_part, url_query_pairs};
use crate::web_url::{url_query_part, url_with_query, url_without_fragment};

verus! {

broadcast use vstd::string::group_string_axioms;

// ---------------------------------------------------------------------------
// The set of seen URLs
// ---------------------------------------------------------------------------

/// The set of URLs seen so far. It keeps each URL once, in a vector with no
/// repeated entry: std's `HashSet` with `String` keys is given no
/// specification that lets membership be proved, while a vector's is.
pub struct Dedup {
    seen: Vec<String>,
}

impl Dedup {
    /// The seen URLs, in the order they were first marked.
    pub closed spec fn seen_seq(&self) -> Seq<Seq<char>> {
        self.seen@.map_values(|s: String| s@)
    }

    #[verifier::type_invariant]
    closed spec fn each_once(&self) -> bool {
        self.seen_seq().no_duplicates()
    }
}

impl View for Dedup {
    type V = Set<Seq<char>>;

    /// The set of URLs seen.
    closed spec fn view(&self) -> Set<Seq<char>> {
        self.seen_seq().to_set()
    }
}

impl Dedup {
    /// An empty set.
    pub fn new() -> (d: Dedup)
        ensures
            d@ == Set::<Seq<char>>::empty(),
            d@.finite(),
    {
        let d = Dedup { seen: Vec::new() };
        assert(d.seen_seq().to_set() =~= Set::<Seq<char>>::empty());
        d
    }

    /// Whether `url` has been marked.
    pub fn is_seen(&self, url: &str) -> (b: bool)
        ensures
            b == self@.contains(url@),
            self@.finite(),
    {
        broadcast use vstd::seq_lib::seq_to_set_is_finite;

        let target: String = url.to_owned();
        let mut i: usize = 0;
        while i < self.seen.len()
            invariant
                i <= self.seen@.len(),
                target@ == url@,
                forall|j: int| 0 <= j < i ==> self.seen_seq()[j] != url@,
            decreases self.seen@.len() - i,
        {
            if self.seen[i] == target {
                assert(self.seen_seq()[i as int] == url@);
                return true;
            }
            i += 1;
        }
        assert(!self.seen_seq().contains(url@));
        false
    }

    /// Marks `url` as seen.
    pub fn mark_seen(&mut self, url: &str)
        ensures
            final(self)@ == old(self)@.insert(url@),
            final(self)@.finite(),
    {
        broadcast use vstd::seq_lib::seq_to_set_is_finite;

        if !self.is_seen(url) {
            proof {
                use_type_invariant(&*self);
                assert(!self.seen_seq().contains(url@));
            }
            let ghost before = self.seen_seq();
            let mut seen: Vec<String> = Vec::new();
            std::mem::swap(&mut seen, &mut self.seen);
            seen.push(url.to_owned());
            assert(seen@.map_values(|s: String| s@) =~= before.push(url@));
            assert(before.push(url@).no_duplicates()) by {
                assert forall|i: int, j: int|
                    0 <= i < before.len() + 1 && 0 <= j < before.len() + 1 && i != j implies
                    #[trigger] before.push(url@)[i] != #[trigger] before.push(url@)[j] by {
                    if i < before.len() && j < before.len() {
                        assert(before[i] != before[j]);
                    } else if i < before.len() {
                        assert(before.contains(before[i]));
                    } else {
                        assert(before.contains(before[j]));
                    }
                }
            }
            self.seen = seen;
            assert(self.seen_seq() == before.push(url@));
            assert forall|x: Seq<char>|
                #[trigger] before.push(url@).contains(x) <==> before.contains(x) || x == url@ by {
                if before.push(url@).contains(x) {
                    let k = choose|k: int| 0 <= k < before.len() + 1 && before.push(url@)[k] == x;
                    if k < before.len() {
                        assert(before.contains(x));
                    }
                }
                if before.contains(x) {
                    let k = choose|k: int| 0 <= k < before.len() && before[k] == x;
                    assert(before.push(url@)[k] == x);
                }
                if x == url@ {
                    assert(before.push(url@)[before.len() as int] == x);
                }
            }
            assert(self.seen_seq().to_set() =~= before.to_set().insert(url@));
        } else {
            assert(old(self)@.insert(url@) =~= old(self)@);
        }
    }

    /// The set of URLs seen is finite.
    pub proof fn lemma_seen_finite(&self)
        ensures
            self@.finite(),
    {
        broadcast use vstd::seq_lib::seq_to_set_is_finite;
    }

    /// The number of distinct URLs seen.
    pub fn count(&self) -> (n: usize)
        ensures
            n == self@.len(),
            self@.finite(),
    {
        proof {
            use_type_invariant(self);
            self.seen_seq().unique_seq_to_set();
        }
        self.seen.len()
    }
}

// ---------------------------------------------------------------------------
// Order of query parameters
// ---------------------------------------------------------------------------

/// `p` sorts strictly before `q`: by name, then by value (the order of
/// `(String, String)`).
pub open spec fn pair_less(p: (Seq<char>, Seq<char>), q: (Seq<char>, Seq<char>)) -> bool {
    seq_less(p.0, q.0) || (p.0 == q.0 && seq_less(p.1, q.1))
}

/// The total order "not after" on name/value pairs.
pub open spec fn pair_leq() -> spec_fn((Seq<char>, Seq<char>), (Seq<char>, Seq<char>)) -> bool {
    |p: (Seq<char>, Seq<char>), q: (Seq<char>, Seq<char>)| !pair_less(q, p)
}

proof fn lemma_pair_less_asymmetric(p: (Seq<char>, Seq<char>), q: (Seq<char>, Seq<char>))
    ensures
        !(pair_less(p, q) && pair_less(q, p)),
{
    lemma_seq_less_asymmetric(p.0, q.0);
    lemma_seq_less_asymmetric(p.1, q.1);
    lemma_seq_less_asymmetric(p.0, p.0);
}

proof fn lemma_pair_less_total(p: (Seq<char>, Seq<char>), q: (Seq<char>, Seq<char>))
    ensures
        p == q || pair_less(p, q) || pair_less(q, p),
{
    lemma_seq_less_total(p.0, q.0);
    lemma_seq_less_total(p.1, q.1);
}

proof fn lemma_pair_less_transitive(
    p: (Seq<char>, Seq<char>),
    q: (Seq<char>, Seq<char>),
    r: (Seq<char>, Seq<char>),
)
    requires
        pair_less(p, q),
        pair_less(q, r),
    ensures
        pair_less(p, r),
{
    if seq_less(p.0, q.0) && seq_less(q.0, r.0) {
        lemma_seq_less_transitive(p.0, q.0, r.0);
    }
    if p.0 == q.0 && q.0 == r.0 && seq_less(p.1, q.1) && seq_less(q.1, r.1) {
        lemma_seq_less_transitive(p.1, q.1, r.1);
    }
}

/// The order on pairs is a total order.
pub proof fn lemma_pair_leq_total_ordering()
    ensures
        total_ordering(pair_leq()),
{
    let leq = pair_leq();
    assert forall|x: (Seq<char>, Seq<char>)| #[trigger] leq(x, x) by {
        lemma_pair_less_asymmetric(x, x);
    }
    assert forall|x: (Seq<char>, Seq<char>), y: (Seq<char>, Seq<char>)|
        #[trigger] leq(x, y) && #[trigger] leq(y, x) implies x == y by {
        lemma_pair_less_total(x, y);
    }
    assert forall|
        x: (Seq<char>, Seq<char>),
        y: (Seq<char>, Seq<char>),
        z: (Seq<char>, Seq<char>),
    | #[trigger] leq(x, y) && #[trigger] leq(y, z) implies leq(x, z) by {
        if pair_less(z, x) {
            lemma_pair_less_total(x, y);
            lemma_pair_less_total(y, z);
            if pair_less(x, y) {
                lemma_pair_less_transitive(z, x, y);
            } else if x == y {
            } else {
            }
        }
    }
    assert forall|x: (Seq<char>, Seq<char>), y: (Seq<char>, Seq<char>)|
        #[trigger] leq(x, y) || #[trigger] leq(y, x) by {
        lemma_pair_less_asymmetric(x, y);
    }
}

/// Two sequences sorted by the same total order with the same elements are
/// equal.
pub proof fn lemma_sorted_unique<A>(a: Seq<A>, b: Seq<A>, leq: spec_fn(A, A) -> bool)
    requires
        total_ordering(leq),
        sorted_by(a, leq),
        sorted_by(b, leq),
        a.to_multiset() == b.to_multiset(),
    ensures
        a == b,
    decreases a.len(),
{
    broadcast use vstd::seq_lib::group_to_multiset_ensures;

    assert(a.len() == a.to_multiset().len());
    assert(b.len() == b.to_multiset().len());
    if a.len() > 0 {
        assert(a.contains(a[0]));
        assert(b.to_multiset().count(a[0]) > 0);
        assert(b.contains(a[0]));
        let k = choose|k: int| 0 <= k < b.len() && b[k] == a[0];
        if k > 0 {
            assert(leq(b[0], b[k]));
        }
        assert(leq(b[0], a[0]));
        assert(b.contains(b[0]));
        assert(a.to_multiset().count(b[0]) > 0);
        assert(a.contains(b[0]));
        let m = choose|m: int| 0 <= m < a.len() && a[m] == b[0];
        if m > 0 {
            assert(leq(a[0], a[m]));
        }
        assert(leq(a[0], b[0]));
        assert(a[0] == b[0]);
        assert(a.remove(0) == a.drop_first());
        assert(b.remove(0) == b.drop_first());
        assert(a.drop_first().to_multiset() == b.drop_first().to_multiset());
        assert(sorted_by(a.drop_first(), leq)) by {
            assert forall|i: int, j: int|
                0 <= i < j < a.drop_first().len() implies #[trigger] leq(
                a.drop_first()[i],
                a.drop_first()[j],
            ) by {
                assert(leq(a[i + 1], a[j + 1]));
            }
        }
        assert(sorted_by(b.drop_first(), leq)) by {
            assert forall|i: int, j: int|
                0 <= i < j < b.drop_first().len() implies #[trigger] leq(
                b.drop_first()[i],
                b.drop_first()[j],
            ) by {
                assert(leq(b[i + 1], b[j + 1]));
            }
        }
        lemma_sorted_unique(a.drop_first(), b.drop_first(), leq);
        assert(a == seq![a[0]] + a.drop_first());
        assert(b == seq![b[0]] + b.drop_first());
    } else {
        assert(a == b);
    }
}

/// Whether pair `p` sorts strictly before pair `q`.
fn pair_less_exec(p: &(String, String), q: &(String, String)) -> (r: bool)
    ensures
        r == pair_less((p.0@, p.1@), (q.0@, q.1@)),
{
    let pk = chars_of(p.0.as_str());
    let qk = chars_of(q.0.as_str());
    if chars_less(pk.as_slice(), qk.as_slice()) {
        return true;
    }
    if p.0 == q.0 {
        let pv = chars_of(p.1.as_str());
        let qv = chars_of(q.1.as_str());
        chars_less(pv.as_slice(), qv.as_slice())
    } else {
        false
    }
}

/// The pairs in the order of `pair_leq`, as `sort` leaves them.
fn sort_pairs(pairs: Vec<(String, String)>) -> (r: Vec<(String, String)>)
    ensures
        pair_views(r@) == pair_views(pairs@).sort_by(pair_leq()),
{
    broadcast use vstd::seq_lib::group_to_multiset_ensures;

    let ghost input = pair_views(pairs@);
    let mut r: Vec<(String, String)> = Vec::new();
    let ghost leq = pair_leq();
    assert(pair_views(r@).to_multiset() =~= input.take(0).to_multiset());
    for p in it: pairs
        invariant
            leq == pair_leq(),
            it.seq() == pairs@,
            input == pair_views(pairs@),
            sorted_by(pair_views(r@), leq),
            pair_views(r@).to_multiset() == input.take(it.index() as int).to_multiset(),
    {
        let ghost rv = pair_views(r@);
        let ghost pv = (p.0@, p.1@);
        let mut pos: usize = 0;
        while pos < r.len() && !pair_less_exec(&p, &r[pos])
            invariant
                pos <= r@.len(),
                rv == pair_views(r@),
                pv == (p.0@, p.1@),
                forall|k: int| 0 <= k < pos ==> !pair_less(pv, #[trigger] rv[k]),
            decreases r@.len() - pos,
        {
            pos += 1;
        }
        let ghost idx = it.index();
        r.insert(pos, p);
        proof {
            let nv = pair_views(r@);
            assert(nv == rv.insert(pos as int, pv));
            assert(input.take(idx + 1) == input.take(idx as int).push(pv));
            assert(p == pairs@[idx as int]);
            assert(input[idx as int] == pv);
            assert(pos <= rv.len());
            vstd::seq_lib::to_multiset_insert(rv, pos as int, pv);
            vstd::seq_lib::to_multiset_build(input.take(idx as int), pv);
            assert(rv.insert(pos as int, pv).to_multiset() == rv.to_multiset().insert(pv));
            assert(input.take(idx as int).push(pv).to_multiset() == input.take(
                idx as int,
            ).to_multiset().insert(pv));
            assert(nv.to_multiset() == rv.to_multiset().insert(pv));
            assert forall|i: int, j: int| 0 <= i < j < nv.len() implies #[trigger] leq(
                nv[i],
                nv[j],
            ) by {
                let a = nv[i];
                let b = nv[j];
                if j < pos {
                    assert(leq(rv[i], rv[j]));
                } else if i > pos {
                    assert(leq(rv[i - 1], rv[j - 1]));
                } else if i == pos && j > pos {
                    // pv sorts before rv[pos] and rv[pos] is not after rv[j - 1]
                    assert(pos < rv.len());
                    assert(pair_less(pv, rv[pos as int]));
                    if j - 1 > pos {
                        assert(leq(rv[pos as int], rv[j - 1]));
                    }
                    lemma_pair_less_total(rv[pos as int], rv[j - 1]);
                    if pair_less(rv[pos as int], rv[j - 1]) {
                        lemma_pair_less_transitive(pv, rv[pos as int], rv[j - 1]);
                    }
                    lemma_pair_less_asymmetric(pv, rv[j - 1]);
                } else if i < pos && j == pos {
                    assert(!pair_less(pv, rv[i]));
                } else {
                    // i < pos < j
                    assert(leq(rv[i], rv[j - 1]));
                }
            }
        }
    }
    proof {
        assert(input.take(input.len() as int) == input);
        lemma_pair_leq_total_ordering();
        input.lemma_sort_by_ensures(leq);
        lemma_sorted_unique(pair_views(r@), input.sort_by(leq), leq);
    }
    r
}

// ---------------------------------------------------------------------------
// Normalization
// ---------------------------------------------------------------------------

/// One query item: `name=value`, or `name` alone when the value is empty.
pub open spec fn query_item(p: (Seq<char>, Seq<char>)) -> Seq<char> {
    if p.1.len() == 0 {
        p.0
    } else {
        p.0 + seq!['='] + p.1
    }
}

/// The query items joined with `&`.
pub open spec fn join_query_items(items: Seq<(Seq<char>, Seq<char>)>) -> Seq<char>
    decreases items.len(),
{
    if items.len() == 0 {
        seq![]
    } else if items.len() == 1 {
        query_item(items[0])
    } else {
        join_query_items(items.drop_last()) + seq!['&'] + query_item(items.last())
    }
}

/// The query that normalization writes for decoded pairs: the pairs sorted,
/// joined as `name=value` items with `&`; no query when there are no pairs.
pub open spec fn sorted_query_spec(pairs: Seq<(Seq<char>, Seq<char>)>) -> Option<Seq<char>> {
    let sorted = pairs.sort_by(pair_leq());
    if sorted.len() == 0 {
        None
    } else {
        Some(join_query_items(sorted))
    }
}

/// A serialization without the slash that ends it, when the URL is a bare
/// host: its path is `/` or empty and it has no query.
pub open spec fn strip_root_slash_spec(s: Seq<char>, path: Seq<char>, no_query: bool) -> Seq<
    char,
> {
    if s.len() > 0 && s.last() == '/' && (path == seq!['/'] || path.len() == 0) && no_query {
        s.drop_last()
    } else {
        s
    }
}

/// The normalized form of a parsed URL's serialization: the fragment
/// removed, the query parameters (if there is a query) sorted, and the
/// final slash of a bare host dropped.
pub open spec fn normalized_form(parsed: Seq<char>) -> Seq<char> {
    let u1 = url_without_fragment(parsed);
    let u2 = if url_query_part(u1) is Some {
        url_with_query(u1, sorted_query_spec(url_query_pairs(u1)))
    } else {
        u1
    };
    strip_root_slash_spec(u2, url_path_part(u2), url_query_part(u2) is None)
}

/// The query to write for decoded query pairs: sorted, joined with `&`, each
/// pair as `name=value` (or `name` when the value is empty); `None` when
/// there are no pairs.
pub fn sorted_query(pairs: Vec<(String, String)>) -> (r: Option<String>)
    ensures
        opt_view(r) == sorted_query_spec(pair_views(pairs@)),
{
    let sorted = sort_pairs(pairs);
    let ghost sv = pair_views(sorted@);
    if sorted.len() == 0 {
        return None;
    }
    let mut out = String::new();
    let mut i: usize = 0;
    while i < sorted.len()
        invariant
            0 < sorted@.len(),
            i <= sorted@.len(),
            sv == pair_views(sorted@),
            i > 0 ==> out@ == join_query_items(sv.take(i as int)),
            i == 0 ==> out@ == Seq::<char>::empty(),
        decreases sorted@.len() - i,
    {
        let ghost before = out@;
        if i > 0 {
            push_char(&mut out, '&');
        }
        push_str(&mut out, sorted[i].0.as_str());
        if !sorted[i].1.as_str().is_empty() {
            push_char(&mut out, '=');
            push_str(&mut out, sorted[i].1.as_str());
        }
        proof {
            let items = sv.take(i + 1);
            assert(items.last() == sv[i as int]);
            assert(items.drop_last() == sv.take(i as int));
            if i > 0 {
                assert(out@ == before + seq!['&'] + query_item(sv[i as int]));
            } else {
                assert(out@ == query_item(sv[i as int]));
            }
        }
        i += 1;
    }
    assert(sv.take(sv.len() as int) == sv);
    Some(out)
}

/// The query normalization writes lists the decoded pairs in sorted order,
/// each exactly as often as it occurs: the pairs it joins are sorted by
/// name, then value, and are a permutation of the pairs given.
pub proof fn lemma_sorted_query_is_sorted(pairs: Seq<(Seq<char>, Seq<char>)>)
    ensures
        sorted_by(pairs.sort_by(pair_leq()), pair_leq()),
        pairs.sort_by(pair_leq()).to_multiset() == pairs.to_multiset(),
        forall|i: int, j: int|
            0 <= i < j < pairs.sort_by(pair_leq()).len() ==> !pair_less(
                #[trigger] pairs.sort_by(pair_leq())[j],
                #[trigger] pairs.sort_by(pair_leq())[i],
            ),
{
    lemma_pair_leq_total_ordering();
    pairs.lemma_sort_by_ensures(pair_leq());
    let s = pairs.sort_by(pair_leq());
    assert forall|i: int, j: int| 0 <= i < j < s.len() implies !pair_less(
        #[trigger] s[j],
        #[trigger] s[i],
    ) by {
        assert(pair_leq()(s[i], s[j]));
    }
}

/// The order of query parameters does not matter: two lists of decoded
/// pairs that hold the same pairs, each as often, give the same query.
pub proof fn lemma_query_order_irrelevant(
    p1: Seq<(Seq<char>, Seq<char>)>,
    p2: Seq<(Seq<char>, Seq<char>)>,
)
    requires
        p1.to_multiset() == p2.to_multiset(),
    ensures
        sorted_query_spec(p1) == sorted_query_spec(p2),
{
    lemma_pair_leq_total_ordering();
    p1.lemma_sort_by_ensures(pair_leq());
    p2.lemma_sort_by_ensures(pair_leq());
    lemma_sorted_unique(p1.sort_by(pair_leq()), p2.sort_by(pair_leq()), pair_leq());
}

/// The fragment does not matter: two parsed URLs that are the same once
/// their fragments are removed normalize to the same string.
pub proof fn lemma_fragment_irrelevant(p1: Seq<char>, p2: Seq<char>)
    requires
        url_without_fragment(p1) == url_without_fragment(p2),
    ensures
        normalized_form(p1) == normalized_form(p2),
{
}

/// A serialization without its final `/` when the path is `/` or empty and
/// there is no query.
pub fn strip_root_slash(serialized: String, path: &str, no_query: bool) -> (r: String)
    ensures
        r@ == strip_root_slash_spec(serialized@, path@, no_query),
{
    let chars = chars_of(serialized.as_str());
    let p = chars_of(path);
    let n = chars.len();
    if n > 0 && chars[n - 1] == '/' && ((p.len() == 1 && p[0] == '/') || p.len() == 0) && no_query {
        assert(p@ == seq!['/'] || p@.len() == 0);
        let mut out = String::new();
        let mut i: usize = 0;
        while i < n - 1
            invariant
                n == chars@.len(),
                0 < n,
                i <= n - 1,
                out@ == chars@.take(i as int),
            decreases n - 1 - i,
        {
            push_char(&mut out, chars[i]);
            i += 1;
            assert(out@ == chars@.take(i as int));
        }
        assert(chars@.take(n - 1) == serialized@.drop_last());
        out
    } else {
        assert(!(p@ == seq!['/'] || p@.len() == 0) || !(n > 0 && chars@.last() == '/') || !no_query);
        serialized
    }
}

/// Normalizes a URL for deduplication: parsed by the `url` crate (which
/// lower-cases scheme and host), fragment removed, query parameters sorted,
/// and the final slash of a bare host dropped. Fails exactly when the `url`
/// crate refuses the input.
pub fn normalize_url(raw: &str) -> (r: Result<String, CrawlError>)
    ensures
        url_parse_result(raw@) is None ==> r is Err,
        url_parse_result(raw@) matches Some(s) ==> (r matches Ok(out) && out@ == normalized_form(s)),
{
    let mut parsed = match parse_url(raw) {
        Ok(u) => u,
        Err(e) => return Err(CrawlError::InvalidUrl(e)),
    };
    clear_fragment(&mut parsed);
    if query_of(&parsed).is_some() {
        let pairs = query_pairs_of(&parsed);
        let q = sorted_query(pairs);
        match q {
            None => set_query(&mut parsed, None),
            Some(s) => set_query(&mut parsed, Some(s.as_str())),
        }
    }
    let out = parsed.serialization();
    let path = path_of(&parsed);
    let no_query = query_of(&parsed).is_none();
    Ok(strip_root_slash(out, path.as_str(), no_query))
}

} // verus!
