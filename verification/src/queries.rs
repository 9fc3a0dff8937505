//! What the REST endpoints compute from their arguments: the window of a
//! paged list, the token list with its filter, search and sort orders, and
//! the outputs a token-event search prompt asks for.
use vstd::prelude::*;
use vstd::string::StringSliceAdditionalSpecFns;
use vstd::utf8::is_char_boundary;
use crate::tokens::{
    parse_u32, parse_u32_spec, txid_bytes, HexError, IntErrorKind, OutPoint, Txid,
};

verus! {

/// The number of pages of `size` items that hold `count` items.
pub open spec fn page_count(count: nat, size: nat) -> nat {
    ((count + size - 1) as nat) / size
}

/// The index of the first item on page `page` (counted from one), kept
/// within the list.
pub open spec fn page_start(count: nat, page: nat, size: nat) -> nat {
    let s = ((page - 1) * size) as nat;
    if s < count {
        s
    } else {
        count
    }
}

/// The index just past the last item on page `page`, kept within the list.
pub open spec fn page_end(count: nat, page: nat, size: nat) -> nat {
    let e = page_start(count, page, size) + size;
    if e < count {
        e
    } else {
        count
    }
}

/// A paged view of a list of `count` items, `page_size` per page: the
/// number of pages and the indices `start..end` of the items on page `page`
/// (counted from one).
pub fn page_window(count: usize, page: usize, page_size: usize) -> (r: (usize, usize, usize))
    requires
        page >= 1,
        page_size >= 1,
        (page - 1) * page_size <= usize::MAX,
    ensures
        r.0 == page_count(count as nat, page_size as nat),
        r.1 == page_start(count as nat, page as nat, page_size as nat),
        r.2 == page_end(count as nat, page as nat, page_size as nat),
{
    let pages = if count % page_size == 0 {
        count / page_size
    } else {
        assert(count / page_size < count) by (nonlinear_arith)
            requires
                page_size >= 1,
                count % page_size != 0,
        ;
        count / page_size + 1
    };
    proof {
        let c = count as int;
        let z = page_size as int;
        assert(c == z * (c / z) + c % z) by (nonlinear_arith)
            requires
                z > 0,
        ;
        assert(0 <= c % z < z) by (nonlinear_arith)
            requires
                z > 0,
        ;
        if c % z == 0 {
            assert((c + z - 1) / z == c / z) by (nonlinear_arith)
                requires
                    z > 0,
                    c == z * (c / z),
            ;
        } else {
            assert((c + z - 1) / z == c / z + 1) by (nonlinear_arith)
                requires
                    z > 0,
                    c == z * (c / z) + c % z,
                    0 < c % z < z,
            ;
        }
    }
    let skip = (page - 1) * page_size;
    let start = if skip < count { skip } else { count };
    let end = if count - start > page_size { start + page_size } else { count };
    (pages, start, end)
}

/// The holders shown on page `page` of a holder list sorted by balance from
/// lowest to highest (`count` entries): for each, its rank (1 for the largest
/// balance) and its index in the sorted list.
pub fn holder_page(count: usize, page: usize, page_size: usize) -> (r: Vec<(usize, usize)>)
    requires
        page >= 1,
        page_size >= 1,
        (page - 1) * page_size <= usize::MAX,
    ensures
        ({
            let start = page_start(count as nat, page as nat, page_size as nat);
            let end = page_end(count as nat, page as nat, page_size as nat);
            &&& r@.len() == end - start
            &&& forall|k: int|
                0 <= k < r@.len() ==> #[trigger] r@[k] == ((start + k + 1) as usize, (count - 1 - (start + k))
                    as usize)
        }),
{
    let window = page_window(count, page, page_size);
    let start: usize = window.1;
    let end: usize = window.2;
    let mut out: Vec<(usize, usize)> = Vec::new();
    let mut i: usize = start;
    while i < end
        invariant
            start <= i <= end <= count,
            out@.len() == i - start,
            forall|k: int| 0 <= k < out@.len() ==> #[trigger] out@[k] == ((start + k + 1) as usize, (count - 1 - (start + k)) as usize),
        decreases end - i,
    {
        out.push((i + 1, count - 1 - i));
        i = i + 1;
    }
    out
}

/// Consecutive pages follow each other: each page ends where the next one
/// starts, the first starts at the beginning, and the last page of the
/// count ends at the end of a non-empty list.
pub proof fn law_pages_tile(count: nat, page: nat, size: nat)
    requires
        page >= 1,
        size >= 1,
    ensures
        page_end(count, page, size) == page_start(count, page + 1, size),
        page_start(count, 1, size) == 0,
        count > 0 ==> page_end(count, page_count(count, size), size) == count,
{
    assert((page - 1) * size + size == page * size) by (nonlinear_arith);
    assert(((page + 1) - 1) * size == page * size) by (nonlinear_arith);
    assert((1 - 1) * size == 0) by (nonlinear_arith);
    if count > 0 {
        let n = page_count(count, size);
        assert(n >= 1 && (n - 1) * size < count && count <= n * size) by (nonlinear_arith)
            requires
                size >= 1,
                count > 0,
                n == ((count + size - 1) as nat) / size,
        ;
        assert((n - 1) * size + size == n * size) by (nonlinear_arith);
    }
}

/// Why a token-event search prompt was refused.
#[derive(Debug, Clone, Copy, PartialEq, Eq)]
pub enum SearchError {
    /// The first 64 characters are not a transaction id.
    Txid(HexError),
    /// What follows the separator is not an output index.
    Vout(IntErrorKind),
}

/// The part of a search prompt (as bytes) read as the transaction id: its
/// first 64 bytes, or all of it when shorter.
pub open spec fn search_head(b: Seq<u8>) -> Seq<u8> {
    if b.len() < 64 {
        b
    } else {
        b.take(64)
    }
}

/// The range of outputs a token-event search prompt asks for: every output
/// of the transaction, or the one output named after the separator.
pub fn event_search_range(search: &str) -> (r: Result<(OutPoint, OutPoint), SearchError>)
    requires
        search.spec_bytes().len() >= 64 ==> is_char_boundary(search.spec_bytes(), 64),
        search.spec_bytes().len() > 65 ==> is_char_boundary(search.spec_bytes(), 65),
    ensures
        ({
            let b = search.spec_bytes();
            match txid_bytes(search_head(b)) {
                None => r matches Err(SearchError::Txid(_)),
                Some(t) => if b.len() > 65 {
                    match parse_u32_spec(b.skip(65)) {
                        Ok(v) => r matches Ok((from, to)) && from.txid.0@ == t && to.txid.0@ == t
                            && from.vout == v && to.vout == v,
                        Err(k) => r == Err::<(OutPoint, OutPoint), SearchError>(SearchError::Vout(k)),
                    }
                } else {
                    r matches Ok((from, to)) && from.txid.0@ == t && to.txid.0@ == t && from.vout == 0
                        && to.vout == u32::MAX
                },
            }
        }),
{
    let n = search.as_bytes().len();
    let cut = if n < 64 {
        n
    } else {
        64
    };
    proof {
        if n < 64 {
            vstd::utf8::encode_utf8_valid_utf8(search@);
            vstd::utf8::is_char_boundary_start_end_of_seq(search.spec_bytes());
        }
    }
    let (head, _) = search.split_at(cut);
    assert(head.spec_bytes() =~= search_head(search.spec_bytes()));
    let txid = match Txid::from_str(head) {
        Ok(t) => t,
        Err(e) => {
            return Err(SearchError::Txid(e));
        },
    };
    let vout: Option<u32> = if n > 65 {
        let (_, tail) = search.split_at(65);
        assert(tail.spec_bytes() =~= search.spec_bytes().skip(65));
        match parse_u32(tail.as_bytes()) {
            Ok(v) => Some(v),
            Err(k) => {
                return Err(SearchError::Vout(k));
            },
        }
    } else {
        None
    };
    let from = OutPoint {
        txid,
        vout: match vout {
            Some(x) => x,
            None => 0,
        },
    };
    let to = OutPoint {
        txid,
        vout: match vout {
            Some(x) => x,
            None => u32::MAX,
        },
    };
    Ok((from, to))
}

impl SearchError {
    /// The text the endpoint answers a refused prompt with.
    pub fn message(&self) -> (r: String)
        ensures
            r@ == match *self {
                SearchError::Txid(h) => crate::tokens::hex_error_text(h),
                SearchError::Vout(_) => "Failed to parse outpoint from search prompt"@,
            },
    {
        match *self {
            SearchError::Txid(h) => h.message(),
            SearchError::Vout(_) => String::from_str("Failed to parse outpoint from search prompt"),
        }
    }
}

/// Which tokens the token list keeps.
#[derive(Clone, Copy, Debug, PartialEq, Eq)]
pub enum TokenFilterBy {
    All,
    Completed,
    InProgress,
}

/// The order of the token list: by deploy time, holder count or
/// transaction count, each ascending or descending.
#[derive(Clone, Copy, Debug, PartialEq, Eq)]
pub enum TokenSortBy {
    DeployTimeAsc,
    DeployTimeDesc,
    HoldersAsc,
    HoldersDesc,
    TransactionsAsc,
    TransactionsDesc,
}

/// What the token list reads of a deployed token: its tick (the key it is
/// stored under), deploy time, transaction count, holder count (when the
/// holder statistics know the token) and whether its supply is all minted.
pub struct TokenRow {
    pub tick: Vec<u8>,
    pub created: u32,
    pub transactions: u32,
    pub holders: Option<u64>,
    pub completed: bool,
}

/// Whether `p` is a prefix of `s`.
pub open spec fn is_prefix(p: Seq<u8>, s: Seq<u8>) -> bool {
    p.len() <= s.len() && s.take(p.len() as int) == p
}

/// Whether a token passes the filter and, when a search text is given,
/// its tick starts with that text.
pub open spec fn passes(r: TokenRow, filter: TokenFilterBy, search: Option<Seq<u8>>) -> bool {
    &&& match filter {
        TokenFilterBy::All => true,
        TokenFilterBy::Completed => r.completed,
        TokenFilterBy::InProgress => !r.completed,
    }
    &&& match search {
        Some(p) => is_prefix(p, r.tick@),
        None => true,
    }
}

/// The tick search matches the start of the tick: a row passes with a
/// search text exactly when it passes without one and its tick begins with
/// the text, byte for byte; a tick whose first byte differs from the
/// text's never passes.
pub proof fn law_search_matches_tick_start(r: TokenRow, filter: TokenFilterBy, p: Seq<u8>)
    ensures
        passes(r, filter, Some(p)) <==> (passes(r, filter, None) && p.len() <= r.tick@.len() && forall|j: int|
            0 <= j < p.len() ==> #[trigger] r.tick@[j] == p[j]),
        p.len() > 0 && r.tick@.len() > 0 && r.tick@[0] != p[0] ==> !passes(r, filter, Some(p)),
{
    let t = r.tick@;
    if p.len() <= t.len() {
        if forall|j: int| 0 <= j < p.len() ==> #[trigger] t[j] == p[j] {
            assert(t.take(p.len() as int) =~= p);
        } else if t.take(p.len() as int) == p {
            assert forall|j: int| 0 <= j < p.len() implies #[trigger] t[j] == p[j] by {
                assert(t.take(p.len() as int)[j] == t[j]);
            }
        }
    }
    if p.len() > 0 && t.len() > 0 && t[0] != p[0] && p.len() <= t.len() && t.take(p.len() as int) == p {
        assert(t.take(p.len() as int)[0] == t[0]);
    }
}

/// The indices of the rows that pass, in the order given.
pub open spec fn selected(rows: Seq<TokenRow>, filter: TokenFilterBy, search: Option<Seq<u8>>) -> Seq<usize>
    decreases rows.len(),
{
    if rows.len() == 0 {
        Seq::empty()
    } else {
        let p = selected(rows.drop_last(), filter, search);
        if passes(rows.last(), filter, search) {
            p.push((rows.len() - 1) as usize)
        } else {
            p
        }
    }
}

/// The selected indices are rows of the list, in increasing order, and are
/// exactly the rows that pass.
pub proof fn law_selected_rows(rows: Seq<TokenRow>, filter: TokenFilterBy, search: Option<Seq<u8>>)
    requires
        rows.len() <= usize::MAX,
    ensures
        forall|a: int, b: int|
            0 <= a < b < selected(rows, filter, search).len() ==> selected(rows, filter, search)[a]
                < selected(rows, filter, search)[b],
        forall|a: int|
            0 <= a < selected(rows, filter, search).len() ==> selected(rows, filter, search)[a] < rows.len(),
        forall|i: usize|
            i < rows.len() ==> (selected(rows, filter, search).contains(i) <==> passes(rows[i as int], filter, search)),
    decreases rows.len(),
{
    if rows.len() > 0 {
        let p = rows.drop_last();
        law_selected_rows(p, filter, search);
        let t = selected(p, filter, search);
        let n = (rows.len() - 1) as usize;
        assert(n == rows.len() - 1);
        let w = selected(rows, filter, search);
        assert(rows.last() == rows[n as int]);
        assert(w == if passes(rows[n as int], filter, search) { t.push(n) } else { t });
        assert forall|a: int, b: int| 0 <= a < b < w.len() implies w[a] < w[b] by {
            if b < t.len() {
                assert(w[a] == t[a] && w[b] == t[b]);
            } else {
                assert(w[a] == t[a]);
            }
        }
        assert forall|i: usize| i < rows.len() implies (selected(rows, filter, search).contains(i) <==> passes(
            rows[i as int],
            filter,
            search,
        )) by {
            if i < n {
                assert(rows[i as int] == p[i as int]);
                if w.contains(i) && !t.contains(i) {
                    let j = choose|j: int| 0 <= j < w.len() && w[j] == i;
                    assert(j == t.len());
                }
                if t.contains(i) {
                    let j = choose|j: int| 0 <= j < t.len() && t[j] == i;
                    assert(w[j] == i);
                }
            } else {
                if passes(rows[i as int], filter, search) {
                    assert(w[t.len() as int] == i);
                } else if w.contains(i) {
                    let j = choose|j: int| 0 <= j < w.len() && w[j] == i;
                    assert(t[j] < n);
                }
            }
        }
    }
}

/// The key a row is sorted by; a token the holder statistics do not know
/// comes before every known holder count.
pub open spec fn sort_key(r: TokenRow, by: TokenSortBy) -> int {
    match by {
        TokenSortBy::DeployTimeAsc | TokenSortBy::DeployTimeDesc => r.created as int,
        TokenSortBy::HoldersAsc | TokenSortBy::HoldersDesc => match r.holders {
            Some(h) => h as int,
            None => -1,
        },
        TokenSortBy::TransactionsAsc | TokenSortBy::TransactionsDesc => r.transactions as int,
    }
}

/// Whether the order is a descending one.
pub open spec fn descending(by: TokenSortBy) -> bool {
    by is DeployTimeDesc || by is HoldersDesc || by is TransactionsDesc
}

/// The key of the row at index `i`.
pub open spec fn key_at(rows: Seq<TokenRow>, i: usize, by: TokenSortBy) -> int {
    sort_key(rows[i as int], by)
}

/// The position in `t` of the first index whose key is above `k` (the
/// length of `t` when there is none).
pub open spec fn first_above(rows: Seq<TokenRow>, t: Seq<usize>, k: int, by: TokenSortBy) -> int
    decreases t.len(),
{
    if t.len() == 0 {
        0
    } else if key_at(rows, t[0], by) > k {
        0
    } else {
        1 + first_above(rows, t.drop_first(), k, by)
    }
}

/// `t` with `i` put after every index whose key is not above its own.
pub open spec fn insert_stable(rows: Seq<TokenRow>, t: Seq<usize>, i: usize, by: TokenSortBy) -> Seq<usize> {
    let p = first_above(rows, t, key_at(rows, i, by), by);
    t.take(p) + seq![i] + t.skip(p)
}

/// The stable ascending sort of the indices `s` by key: indices with equal
/// keys keep the order they have in `s`.
pub open spec fn sort_stable(rows: Seq<TokenRow>, s: Seq<usize>, by: TokenSortBy) -> Seq<usize>
    decreases s.len(),
{
    if s.len() == 0 {
        Seq::empty()
    } else {
        insert_stable(rows, sort_stable(rows, s.drop_last(), by), s.last(), by)
    }
}

/// The list in the chosen order: the stable ascending sort, reversed for
/// the descending orders.
pub open spec fn ordered(rows: Seq<TokenRow>, s: Seq<usize>, by: TokenSortBy) -> Seq<usize> {
    if descending(by) {
        sort_stable(rows, s, by).reverse()
    } else {
        sort_stable(rows, s, by)
    }
}

/// Where `first_above` points: past every index whose key is not above `k`,
/// at the first one whose key is.
proof fn lemma_first_above(rows: Seq<TokenRow>, t: Seq<usize>, k: int, by: TokenSortBy)
    ensures
        0 <= first_above(rows, t, k, by) <= t.len(),
        forall|q: int| 0 <= q < first_above(rows, t, k, by) ==> key_at(rows, #[trigger] t[q], by) <= k,
        first_above(rows, t, k, by) < t.len() ==> key_at(rows, t[first_above(rows, t, k, by)], by) > k,
    decreases t.len(),
{
    if t.len() > 0 && key_at(rows, t[0], by) <= k {
        let u = t.drop_first();
        lemma_first_above(rows, u, k, by);
        assert forall|q: int| 0 <= q < first_above(rows, t, k, by) implies key_at(rows, #[trigger] t[q], by) <= k by {
            if q > 0 {
                assert(t[q] == u[q - 1]);
            }
        }
    }
}

/// Ordered by key, and among equal keys by index.
pub open spec fn key_index_sorted(rows: Seq<TokenRow>, t: Seq<usize>, by: TokenSortBy) -> bool {
    forall|a: int, b: int|
        0 <= a < b < t.len() ==> key_at(rows, t[a], by) < key_at(rows, t[b], by) || (key_at(rows, t[a], by)
            == key_at(rows, t[b], by) && t[a] < t[b])
}

/// Inserting an index above all others keeps the order by key and index.
proof fn lemma_insert_stable(rows: Seq<TokenRow>, t: Seq<usize>, x: usize, by: TokenSortBy)
    requires
        key_index_sorted(rows, t, by),
        forall|i: int| 0 <= i < t.len() ==> #[trigger] t[i] < x,
    ensures
        insert_stable(rows, t, x, by).len() == t.len() + 1,
        forall|y: usize| #[trigger] insert_stable(rows, t, x, by).contains(y) <==> (t.contains(y) || y == x),
        key_index_sorted(rows, insert_stable(rows, t, x, by), by),
{
    let k = key_at(rows, x, by);
    lemma_first_above(rows, t, k, by);
    let q = first_above(rows, t, k, by);
    let w = insert_stable(rows, t, x, by);
    assert(w == t.take(q) + seq![x] + t.skip(q));
    assert forall|y: usize| #[trigger] w.contains(y) <==> (t.contains(y) || y == x) by {
        if w.contains(y) {
            let i = choose|i: int| 0 <= i < w.len() && w[i] == y;
            if i < q {
                assert(t[i] == y);
            } else if i > q {
                assert(t[i - 1] == y);
            }
        }
        if t.contains(y) {
            let i = choose|i: int| 0 <= i < t.len() && t[i] == y;
            if i < q {
                assert(w[i] == y);
            } else {
                assert(w[i + 1] == y);
            }
        }
        if y == x {
            assert(w[q] == y);
        }
    }
    assert forall|a: int, b: int|
        0 <= a < b < w.len() implies key_at(rows, w[a], by) < key_at(rows, w[b], by) || (key_at(rows, w[a], by)
            == key_at(rows, w[b], by) && w[a] < w[b]) by {
        if b < q {
            assert(w[a] == t[a] && w[b] == t[b]);
        } else if b == q {
            assert(w[a] == t[a]);
            assert(key_at(rows, t[a], by) <= k);
        } else if a < q {
            assert(w[a] == t[a] && w[b] == t[b - 1]);
            assert(key_at(rows, t[a], by) <= k);
            assert(key_at(rows, t[q], by) > k);
        } else if a == q {
            assert(w[b] == t[b - 1]);
            assert(key_at(rows, t[q], by) > k);
        } else {
            assert(w[a] == t[a - 1] && w[b] == t[b - 1]);
        }
    }
}

/// The stable sort of increasing indices holds the same indices, ordered by
/// key and, among equal keys, in the order they were given.
pub proof fn law_sort_is_stable(rows: Seq<TokenRow>, s: Seq<usize>, by: TokenSortBy)
    requires
        forall|a: int, b: int| 0 <= a < b < s.len() ==> s[a] < s[b],
    ensures
        sort_stable(rows, s, by).len() == s.len(),
        forall|y: usize| sort_stable(rows, s, by).contains(y) <==> s.contains(y),
        key_index_sorted(rows, sort_stable(rows, s, by), by),
    decreases s.len(),
{
    if s.len() > 0 {
        let p = s.drop_last();
        let x = s.last();
        assert forall|a: int, b: int| 0 <= a < b < p.len() implies p[a] < p[b] by {
            assert(p[a] == s[a] && p[b] == s[b]);
        }
        law_sort_is_stable(rows, p, by);
        let t = sort_stable(rows, p, by);
        assert forall|i: int| 0 <= i < t.len() implies #[trigger] t[i] < x by {
            assert(t.contains(t[i]));
            assert(p.contains(t[i]));
            let j = choose|j: int| 0 <= j < p.len() && p[j] == t[i];
            assert(p[j] == s[j]);
            assert(s[j] < s[s.len() - 1]);
        }
        lemma_insert_stable(rows, t, x, by);
        assert forall|y: usize| s.contains(y) <==> (p.contains(y) || y == x) by {
            if s.contains(y) {
                let j = choose|j: int| 0 <= j < s.len() && s[j] == y;
                if j < s.len() - 1 {
                    assert(p[j] == y);
                }
            }
            if p.contains(y) {
                let j = choose|j: int| 0 <= j < p.len() && p[j] == y;
                assert(s[j] == y);
            }
        }
    }
}

fn row_key(r: &TokenRow, by: TokenSortBy) -> (k: i128)
    ensures
        k == sort_key(*r, by),
{
    match by {
        TokenSortBy::DeployTimeAsc | TokenSortBy::DeployTimeDesc => r.created as i128,
        TokenSortBy::HoldersAsc | TokenSortBy::HoldersDesc => match r.holders {
            Some(h) => h as i128,
            None => -1,
        },
        TokenSortBy::TransactionsAsc | TokenSortBy::TransactionsDesc => r.transactions as i128,
    }
}

fn starts_with(s: &[u8], p: &[u8]) -> (r: bool)
    ensures
        r == is_prefix(p@, s@),
{
    if p.len() > s.len() {
        return false;
    }
    let mut i: usize = 0;
    while i < p.len()
        invariant
            p@.len() <= s@.len(),
            i <= p@.len(),
            forall|j: int| 0 <= j < i ==> s@[j] == p@[j],
        decreases p@.len() - i,
    {
        if s[i] != p[i] {
            assert(s@.take(p@.len() as int)[i as int] != p@[i as int]);
            return false;
        }
        i = i + 1;
    }
    assert(s@.take(p@.len() as int) =~= p@);
    true
}

fn row_passes(r: &TokenRow, filter: TokenFilterBy, search: Option<&[u8]>) -> (b: bool)
    ensures
        b == passes(*r, filter, match search {
            Some(p) => Some(p@),
            None => None,
        }),
{
    let keep = match filter {
        TokenFilterBy::All => true,
        TokenFilterBy::Completed => r.completed,
        TokenFilterBy::InProgress => !r.completed,
    };
    if !keep {
        return false;
    }
    match search {
        Some(p) => starts_with(r.tick.as_slice(), p),
        None => true,
    }
}

/// The tokens shown on page `page` of the token list: the count of tokens
/// that pass the filter and the search, the number of pages, and the indices
/// (into `rows`) of the tokens on the page, in the chosen order. The order
/// is a stable sort by the chosen key; the descending orders are that sort
/// reversed.
pub fn select_tokens(
    rows: &Vec<TokenRow>,
    filter: TokenFilterBy,
    search: Option<&[u8]>,
    sort: TokenSortBy,
    page: usize,
    page_size: usize,
) -> (r: (usize, usize, Vec<usize>))
    requires
        page >= 1,
        page_size >= 1,
        (page - 1) * page_size <= usize::MAX,
    ensures
        ({
            let sel = selected(rows@, filter, match search {
                Some(p) => Some(p@),
                None => None,
            });
            let all = ordered(rows@, sel, sort);
            &&& r.0 == sel.len()
            &&& r.1 == page_count(sel.len(), page_size as nat)
            &&& r.2@ == all.subrange(
                page_start(sel.len(), page as nat, page_size as nat) as int,
                page_end(sel.len(), page as nat, page_size as nat) as int,
            )
        }),
{
    let ghost sv = match search {
        Some(p) => Some(p@),
        None => None,
    };
    // the indices that pass, in order
    let mut sel: Vec<usize> = Vec::new();
    let mut i: usize = 0;
    while i < rows.len()
        invariant
            i <= rows@.len(),
            sv == match search {
                Some(p) => Some(p@),
                None => None::<Seq<u8>>,
            },
            sel@ == selected(rows@.take(i as int), filter, sv),
            forall|j: int| 0 <= j < sel@.len() ==> sel@[j] < i,
        decreases rows@.len() - i,
    {
        proof {
            assert(rows@.take(i + 1).drop_last() =~= rows@.take(i as int));
            assert(rows@.take(i + 1).last() == rows@[i as int]);
        }
        if row_passes(&rows[i], filter, search) {
            sel.push(i);
        }
        i = i + 1;
    }
    proof {
        assert(rows@.take(rows@.len() as int) =~= rows@);
    }
    // the stable ascending sort, by insertion
    let mut sorted: Vec<usize> = Vec::new();
    let mut j: usize = 0;
    while j < sel.len()
        invariant
            j <= sel@.len(),
            forall|q: int| 0 <= q < sel@.len() ==> sel@[q] < rows@.len(),
            sorted@ == sort_stable(rows@, sel@.take(j as int), sort),
            forall|q: int| 0 <= q < sorted@.len() ==> sorted@[q] < rows@.len(),
            sorted@.len() == j,
        decreases sel@.len() - j,
    {
        let x = sel[j];
        let k = row_key(&rows[x], sort);
        let ghost t = sorted@;
        let mut p: usize = 0;
        assert(t.skip(0) =~= t);
        while p < sorted.len() && row_key(&rows[sorted[p]], sort) <= k
            invariant
                sorted@ == t,
                p <= t.len(),
                forall|q: int| 0 <= q < t.len() ==> t[q] < rows@.len(),
                k == key_at(rows@, x, sort),
                first_above(rows@, t, k as int, sort) == p + first_above(rows@, t.skip(p as int), k as int, sort),
            decreases t.len() - p,
        {
            proof {
                assert(t.skip(p as int).drop_first() =~= t.skip(p + 1));
                assert(t.skip(p as int)[0] == t[p as int]);
            }
            p = p + 1;
        }
        proof {
            if p < t.len() {
                assert(t.skip(p as int)[0] == t[p as int]);
            }
            assert(first_above(rows@, t, k as int, sort) == p);
            assert(sel@.take(j + 1).drop_last() =~= sel@.take(j as int));
            assert(sel@.take(j + 1).last() == x);
        }
        sorted.insert(p, x);
        proof {
            assert(sorted@ =~= t.take(p as int) + seq![x] + t.skip(p as int));
            assert forall|q: int| 0 <= q < sorted@.len() implies sorted@[q] < rows@.len() by {
                if q < p {
                    assert(sorted@[q] == t[q]);
                } else if q > p {
                    assert(sorted@[q] == t[q - 1]);
                }
            }
        }
        j = j + 1;
    }
    proof {
        assert(sel@.take(sel@.len() as int) =~= sel@);
    }
    // the chosen direction
    let desc = match sort {
        TokenSortBy::DeployTimeDesc | TokenSortBy::HoldersDesc | TokenSortBy::TransactionsDesc => true,
        _ => false,
    };
    let mut all: Vec<usize> = Vec::new();
    if desc {
        let mut q: usize = sorted.len();
        while q > 0
            invariant
                q <= sorted@.len(),
                all@ == sorted@.skip(q as int).reverse(),
            decreases q,
        {
            all.push(sorted[q - 1]);
            q = q - 1;
            assert(all@ =~= sorted@.skip(q as int).reverse());
        }
        assert(sorted@.skip(0) =~= sorted@);
    } else {
        all = sorted;
    }
    let window = page_window(sel.len(), page, page_size);
    let start: usize = window.1;
    let end: usize = window.2;
    let mut shown: Vec<usize> = Vec::new();
    let mut q: usize = start;
    while q < end
        invariant
            start <= q <= end <= all@.len(),
            shown@ == all@.subrange(start as int, q as int),
        decreases end - q,
    {
        shown.push(all[q]);
        q = q + 1;
        assert(shown@ =~= all@.subrange(start as int, q as int));
    }
    (sel.len(), window.0, shown)
}

} // verus!
