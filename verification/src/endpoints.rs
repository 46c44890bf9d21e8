use vstd::prelude::*;
use vstd::string::*;
use crate::error::PdError;
use crate::members::{MemberList, MemberListView};
use crate::text::{is_white_space, split, split_on, string_views, trim, trim_end, trim_start, trimmed};

verus! {

/// The trimmed, non-empty pieces of a list of pieces, in order.
pub open spec fn nonempty_trimmed(pieces: Seq<Seq<char>>) -> Seq<Seq<char>>
    decreases pieces.len(),
{
    if pieces.len() == 0 {
        Seq::empty()
    } else {
        let prev = nonempty_trimmed(pieces.drop_last());
        let t = trim(pieces.last());
        if t.len() > 0 {
            prev.push(t)
        } else {
            prev
        }
    }
}

/// The endpoints that a comma-separated list names: every piece trimmed of
/// white space, empty pieces left out.
pub open spec fn listed_endpoints(s: Seq<char>) -> Seq<Seq<char>> {
    nonempty_trimmed(split_on(s, ','))
}

pub open spec fn http_prefix() -> Seq<char> {
    seq!['h', 't', 't', 'p', ':', '/', '/']
}

pub open spec fn has_http_prefix(s: Seq<char>) -> bool {
    s.len() >= 7 && s.take(7) == http_prefix()
}

/// `s` with `http://` put in front unless it already starts with it.
pub open spec fn with_scheme(s: Seq<char>) -> Seq<char> {
    if has_http_prefix(s) {
        s
    } else {
        http_prefix() + s
    }
}

/// The endpoints of a comma-separated list, each with an `http://` scheme.
pub open spec fn normalized_endpoints(s: Seq<char>) -> Seq<Seq<char>> {
    split_on(s, ',').map_values(|p: Seq<char>| with_scheme(p))
}

/// Splits a comma-separated endpoint list, trims every endpoint and drops
/// the empty ones.
pub fn parse_endpoints(endpoints: &str) -> (eps: Vec<String>)
    ensures
        string_views(eps@) == listed_endpoints(endpoints@),
{
    let pieces = split(endpoints, ',');
    let ghost ps = string_views(pieces@);
    let mut eps: Vec<String> = Vec::new();
    let mut i: usize = 0;
    assert(ps.take(0) =~= Seq::<Seq<char>>::empty());
    while i < pieces.len()
        invariant
            i <= pieces.len(),
            ps == string_views(pieces@),
            string_views(eps@) == nonempty_trimmed(ps.take(i as int)),
        decreases pieces.len() - i,
    {
        let t = trimmed(pieces[i].as_str());
        assert(ps.take(i + 1).drop_last() =~= ps.take(i as int));
        assert(ps.take(i + 1).last() == pieces@[i as int]@);
        if t.unicode_len() > 0 {
            let ghost before = string_views(eps@);
            eps.push(t);
            assert(string_views(eps@) =~= before.push(t@));
        }
        i = i + 1;
    }
    assert(ps.take(pieces.len() as int) =~= ps);
    eps
}

/// Whether `s` starts with `http://`.
pub fn starts_with_http(s: &str) -> (b: bool)
    ensures
        b == has_http_prefix(s@),
{
    let n = s.unicode_len();
    if n < 7 {
        return false;
    }
    let b = s.get_char(0) == 'h' && s.get_char(1) == 't' && s.get_char(2) == 't' && s.get_char(3)
        == 'p' && s.get_char(4) == ':' && s.get_char(5) == '/' && s.get_char(6) == '/';
    proof {
        if b {
            assert(s@.take(7) =~= http_prefix());
        } else {
            if s@.take(7) == http_prefix() {
                assert(s@.take(7)[0] == 'h');
                assert(s@.take(7)[1] == 't');
                assert(s@.take(7)[2] == 't');
                assert(s@.take(7)[3] == 'p');
                assert(s@.take(7)[4] == ':');
                assert(s@.take(7)[5] == '/');
                assert(s@.take(7)[6] == '/');
            }
        }
    }
    b
}

/// `ep` with `http://` put in front unless it already starts with it.
pub fn with_http_scheme(ep: &str) -> (s: String)
    ensures
        s@ == with_scheme(ep@),
{
    if starts_with_http(ep) {
        String::from_str(ep)
    } else {
        let scheme = "http://";
        proof {
            reveal_strlit("http://");
            assert(scheme@ =~= http_prefix());
        }
        String::from_str(scheme).concat(ep)
    }
}

/// Splits a comma-separated endpoint list and gives every endpoint an
/// `http://` scheme.
pub fn normalize_endpoints(endpoints: &str) -> (eps: Vec<String>)
    ensures
        string_views(eps@) == normalized_endpoints(endpoints@),
{
    let pieces = split(endpoints, ',');
    let mut eps: Vec<String> = Vec::new();
    let mut i: usize = 0;
    while i < pieces.len()
        invariant
            i <= pieces.len(),
            eps@.len() == i,
            forall|j: int| 0 <= j < i ==> #[trigger] eps@[j]@ == with_scheme(pieces@[j]@),
        decreases pieces.len() - i,
    {
        eps.push(with_http_scheme(pieces[i].as_str()));
        i = i + 1;
    }
    assert(string_views(eps@) =~= string_views(pieces@).map_values(
        |p: Seq<char>| with_scheme(p),
    ));
    eps
}

/// Adding the scheme is idempotent, and the result always has the scheme.
pub proof fn lemma_with_scheme_idempotent(s: Seq<char>)
    ensures
        has_http_prefix(with_scheme(s)),
        with_scheme(with_scheme(s)) == with_scheme(s),
{
    if !has_http_prefix(s) {
        assert((http_prefix() + s).take(7) =~= http_prefix());
    }
}

/// Every endpoint of a normalized list starts with `http://`, and
/// normalizing it again leaves it as it is.
pub proof fn lemma_normalized_have_scheme(s: Seq<char>)
    ensures
        forall|i: int|
            0 <= i < normalized_endpoints(s).len() ==> has_http_prefix(
                #[trigger] normalized_endpoints(s)[i],
            ) && with_scheme(normalized_endpoints(s)[i]) == normalized_endpoints(s)[i],
{
    assert forall|i: int| 0 <= i < normalized_endpoints(s).len() implies has_http_prefix(
        #[trigger] normalized_endpoints(s)[i],
    ) && with_scheme(normalized_endpoints(s)[i]) == normalized_endpoints(s)[i] by {
        lemma_with_scheme_idempotent(split_on(s, ',')[i]);
    }
}

proof fn lemma_trim_start_shape(s: Seq<char>)
    ensures
        trim_start(s).len() == 0 || !is_white_space(trim_start(s)[0]),
    decreases s.len(),
{
    if s.len() > 0 && is_white_space(s[0]) {
        lemma_trim_start_shape(s.drop_first());
    }
}

proof fn lemma_trim_end_shape(s: Seq<char>)
    ensures
        trim_end(s).len() <= s.len(),
        trim_end(s) == s.take(trim_end(s).len() as int),
        trim_end(s).len() == 0 || !is_white_space(trim_end(s).last()),
    decreases s.len(),
{
    if s.len() > 0 && is_white_space(s.last()) {
        lemma_trim_end_shape(s.drop_last());
        assert(s.drop_last().take(trim_end(s).len() as int) =~= s.take(trim_end(s).len() as int));
    } else {
        assert(s.take(s.len() as int) =~= s);
    }
}

/// Trimming twice trims no more than trimming once.
pub proof fn lemma_trim_idempotent(s: Seq<char>)
    ensures
        trim(trim(s)) == trim(s),
        trim(s).len() == 0 || (!is_white_space(trim(s)[0]) && !is_white_space(trim(s).last())),
{
    let a = trim_start(s);
    let b = trim_end(a);
    lemma_trim_start_shape(s);
    lemma_trim_end_shape(a);
    if b.len() > 0 {
        assert(b[0] == a[0]);
    }
    assert(trim_start(b) == b);
    assert(trim_end(b) == b);
}

/// Every endpoint that a list names is non-empty and carries no surrounding
/// white space.
pub proof fn lemma_listed_endpoints_clean(s: Seq<char>)
    ensures
        forall|i: int|
            0 <= i < listed_endpoints(s).len() ==> (#[trigger] listed_endpoints(s)[i]).len() > 0
                && trim(listed_endpoints(s)[i]) == listed_endpoints(s)[i],
{
    lemma_nonempty_trimmed_clean(split_on(s, ','));
}

proof fn lemma_nonempty_trimmed_clean(pieces: Seq<Seq<char>>)
    ensures
        forall|i: int|
            0 <= i < nonempty_trimmed(pieces).len() ==> (#[trigger] nonempty_trimmed(pieces)[i]).len()
                > 0 && trim(nonempty_trimmed(pieces)[i]) == nonempty_trimmed(pieces)[i],
    decreases pieces.len(),
{
    if pieces.len() > 0 {
        let prev = nonempty_trimmed(pieces.drop_last());
        let t = trim(pieces.last());
        lemma_nonempty_trimmed_clean(pieces.drop_last());
        lemma_trim_idempotent(pieces.last());
        let cur = nonempty_trimmed(pieces);
        assert forall|i: int| 0 <= i < cur.len() implies (#[trigger] cur[i]).len() > 0 && trim(
            cur[i],
        ) == cur[i] by {
            if i < prev.len() {
                assert(cur[i] == prev[i]);
            } else {
                assert(cur[i] == t);
            }
        }
    }
}

/// `out` holds, in order, the trimmed pieces `pieces[idx[0]]`,
/// `pieces[idx[1]]`, ..., and `idx` names, in increasing order, every piece
/// that is not blank.
pub open spec fn kept_pieces(idx: Seq<int>, pieces: Seq<Seq<char>>, out: Seq<Seq<char>>) -> bool {
    &&& idx.len() == out.len()
    &&& forall|j: int|
        0 <= j < idx.len() ==> 0 <= #[trigger] idx[j] < pieces.len() && out[j] == trim(
            pieces[idx[j]],
        )
    &&& forall|j: int, k: int| 0 <= j < k < idx.len() ==> #[trigger] idx[j] < #[trigger] idx[k]
    &&& forall|i: int|
        0 <= i < pieces.len() && trim(#[trigger] pieces[i]).len() > 0 ==> exists|j: int|
            0 <= j < idx.len() && #[trigger] idx[j] == i
}

/// Where the kept pieces come from: `idx[j]` is the piece that gave the
/// `j`-th entry.
proof fn nonempty_trimmed_sources(ps: Seq<Seq<char>>) -> (idx: Seq<int>)
    ensures
        idx.len() == nonempty_trimmed(ps).len(),
        forall|j: int|
            0 <= j < idx.len() ==> 0 <= #[trigger] idx[j] < ps.len() && nonempty_trimmed(ps)[j]
                == trim(ps[idx[j]]),
        forall|j: int, k: int| 0 <= j < k < idx.len() ==> #[trigger] idx[j] < #[trigger] idx[k],
        forall|i: int|
            0 <= i < ps.len() && trim(#[trigger] ps[i]).len() > 0 ==> exists|j: int|
                0 <= j < idx.len() && #[trigger] idx[j] == i,
    decreases ps.len(),
{
    if ps.len() == 0 {
        Seq::empty()
    } else {
        let pre = ps.drop_last();
        let prev = nonempty_trimmed(pre);
        let pidx = nonempty_trimmed_sources(pre);
        let last = ps.len() - 1;
        let t = trim(ps[last]);
        let idx = if t.len() > 0 { pidx.push(last) } else { pidx };
        let cur = nonempty_trimmed(ps);
        assert forall|j: int| 0 <= j < idx.len() implies 0 <= #[trigger] idx[j] < ps.len()
            && cur[j] == trim(ps[idx[j]]) by {
            if j < pidx.len() {
                assert(idx[j] == pidx[j]);
                assert(cur[j] == prev[j]);
                assert(ps[pidx[j]] == pre[pidx[j]]);
            }
        }
        assert forall|j: int, k: int| 0 <= j < k < idx.len() implies #[trigger] idx[j] < #[trigger] idx[k] by {
            if k < pidx.len() {
                assert(idx[j] == pidx[j] && idx[k] == pidx[k]);
            } else {
                assert(idx[j] == pidx[j]);
            }
        }
        assert forall|i: int| 0 <= i < ps.len() && trim(#[trigger] ps[i]).len() > 0 implies exists|j: int|
            0 <= j < idx.len() && #[trigger] idx[j] == i by {
            if i < last {
                assert(ps[i] == pre[i]);
                assert(trim(pre[i]).len() > 0);
                let j = choose|j: int| 0 <= j < pidx.len() && #[trigger] pidx[j] == i;
                assert(idx[j] == pidx[j]);
            } else {
                assert(idx[idx.len() - 1] == last);
            }
        }
        idx
    }
}

/// The blocking client's endpoint list holds, in the order of the input,
/// exactly the trimmed comma-separated pieces of the input that are not
/// blank: each entry is such a piece, pieces come in input order, and
/// every piece that is not blank gives an entry. (With
/// `lemma_split_on_rejoins`, the pieces are the text between commas.)
pub proof fn lemma_listed_endpoints_complete(s: Seq<char>)
    ensures
        exists|idx: Seq<int>| #[trigger] kept_pieces(idx, split_on(s, ','), listed_endpoints(s)),
        forall|i: int|
            0 <= i < split_on(s, ',').len() && trim(#[trigger] split_on(s, ',')[i]).len() > 0
                ==> listed_endpoints(s).contains(trim(split_on(s, ',')[i])),
{
    let ps = split_on(s, ',');
    let idx = nonempty_trimmed_sources(ps);
    assert(kept_pieces(idx, ps, listed_endpoints(s)));
    assert forall|i: int| 0 <= i < ps.len() && trim(#[trigger] ps[i]).len() > 0 implies listed_endpoints(
        s,
    ).contains(trim(ps[i])) by {
        let j = choose|j: int| 0 <= j < idx.len() && #[trigger] idx[j] == i;
        assert(listed_endpoints(s)[j] == trim(ps[i]));
    }
}

/// The asynchronous client's endpoint list has one entry per
/// comma-separated piece of the input, whatever the input starts with;
/// entry `i` holds no comma, starts with `http://`, and is piece `i` itself
/// when that piece already starts with `http://`, otherwise `http://`
/// followed by piece `i`.
pub proof fn lemma_normalized_pieces(s: Seq<char>)
    ensures
        normalized_endpoints(s).len() == split_on(s, ',').len(),
        forall|i: int|
            #![trigger normalized_endpoints(s)[i]]
            0 <= i < split_on(s, ',').len() ==> {
                let p = split_on(s, ',')[i];
                let e = normalized_endpoints(s)[i];
                let scheme = seq!['h', 't', 't', 'p', ':', '/', '/'];
                &&& !e.contains(',')
                &&& e.len() >= 7 && e.take(7) == scheme
                &&& (p.len() >= 7 && p.take(7) == scheme) ==> e == p
                &&& !(p.len() >= 7 && p.take(7) == scheme) ==> e == scheme + p
            },
{
    let ps = split_on(s, ',');
    let scheme = seq!['h', 't', 't', 'p', ':', '/', '/'];
    assert(http_prefix() == scheme);
    crate::text::lemma_split_on_rejoins(s, ',');
    assert forall|i: int| #![trigger normalized_endpoints(s)[i]] 0 <= i < ps.len() implies {
        let p = ps[i];
        let e = normalized_endpoints(s)[i];
        &&& !e.contains(',')
        &&& e.len() >= 7 && e.take(7) == scheme
        &&& (p.len() >= 7 && p.take(7) == scheme) ==> e == p
        &&& !(p.len() >= 7 && p.take(7) == scheme) ==> e == scheme + p
    } by {
        let p = ps[i];
        lemma_with_scheme_idempotent(p);
        assert(!p.contains(','));
        if !has_http_prefix(p) {
            let q = http_prefix() + p;
            if q.contains(',') {
                let k = choose|k: int| 0 <= k < q.len() && q[k] == ',';
                if k >= 7 {
                    assert(p[k - 7] == ',');
                    assert(p.contains(','));
                } else {
                    assert(q[k] == http_prefix()[k]);
                }
            }
        }
    }
}

} // verus!
