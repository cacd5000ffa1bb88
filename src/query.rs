use vstd::prelude::*;
use crate::error::AppError;
use crate::models::{Country, GetCountriesQuery};
use crate::store::CountryStore;

verus! {

/// The orders a listing can be asked for.
#[derive(Clone, Copy, PartialEq, Eq, Structural, Debug)]
pub enum SortKey {
    GdpDesc,
    GdpAsc,
    PopDesc,
    PopAsc,
    NameAsc,
    NameDesc,
}

/// The sort key a text names, if it names one.
pub open spec fn sort_key_of(s: Seq<char>) -> Option<SortKey> {
    if s == "gdp_desc"@ {
        Some(SortKey::GdpDesc)
    } else if s == "gdp_asc"@ {
        Some(SortKey::GdpAsc)
    } else if s == "pop_desc"@ {
        Some(SortKey::PopDesc)
    } else if s == "pop_asc"@ {
        Some(SortKey::PopAsc)
    } else if s == "name_asc"@ {
        Some(SortKey::NameAsc)
    } else if s == "name_desc"@ {
        Some(SortKey::NameDesc)
    } else {
        None
    }
}

/// The order a query asks for; an unrecognized key asks for none.
pub open spec fn sort_of(sort: Option<String>) -> Option<SortKey> {
    match sort {
        Some(s) => sort_key_of(s@),
        None => None,
    }
}

/// Strict lexicographic order on texts, character by character.
pub open spec fn lex_lt(a: Seq<char>, b: Seq<char>) -> bool
    decreases a.len(),
{
    if a.len() == 0 {
        b.len() > 0
    } else if b.len() == 0 {
        false
    } else if a[0] != b[0] {
        a[0] < b[0]
    } else {
        lex_lt(a.drop_first(), b.drop_first())
    }
}

/// The character order is transitive.
pub proof fn lemma_lex_trans(a: Seq<char>, b: Seq<char>, c: Seq<char>)
    requires
        lex_lt(a, b),
        lex_lt(b, c),
    ensures
        lex_lt(a, c),
    decreases a.len(),
{
    if a.len() > 0 && b.len() > 0 && c.len() > 0 && a[0] == b[0] && b[0] == c[0] {
        lemma_lex_trans(a.drop_first(), b.drop_first(), c.drop_first());
    }
}

/// Of two texts, one comes before the other or they are equal.
pub proof fn lemma_lex_total(a: Seq<char>, b: Seq<char>)
    ensures
        lex_lt(a, b) || lex_lt(b, a) || a == b,
    decreases a.len(),
{
    if a.len() == 0 && b.len() == 0 {
        assert(a =~= b);
    }

    if a.len() > 0 && b.len() > 0 && a[0] == b[0] {
        lemma_lex_total(a.drop_first(), b.drop_first());
        if a.drop_first() == b.drop_first() {
            assert forall|i: int| 0 <= i < a.len() implies a[i] == b[i] by {
                if i > 0 {
                    assert(a[i] == a.drop_first()[i - 1]);
                    assert(b[i] == b.drop_first()[i - 1]);
                }
            }
            assert(a =~= b);
        }
    }
}

/// No two texts each come before the other.
pub proof fn lemma_lex_asym(a: Seq<char>, b: Seq<char>)
    ensures
        !(lex_lt(a, b) && lex_lt(b, a)),
    decreases a.len(),
{
    if a.len() > 0 && b.len() > 0 && a[0] == b[0] {
        lemma_lex_asym(a.drop_first(), b.drop_first());
    }
}

/// The rank of an estimated GDP in an order: an absent value ranks below
/// every present one.
pub open spec fn gdp_rank(c: Country) -> int {
    match c.estimated_gdp {
        Some(g) => g as int,
        None => i128::MIN as int - 1,
    }
}

/// `a` may stand before `b` in the order `k`.
pub open spec fn key_le(k: SortKey, a: Country, b: Country) -> bool {
    match k {
        SortKey::GdpDesc => gdp_rank(b) <= gdp_rank(a),
        SortKey::GdpAsc => gdp_rank(a) <= gdp_rank(b),
        SortKey::PopDesc => b.population <= a.population,
        SortKey::PopAsc => a.population <= b.population,
        SortKey::NameAsc => !lex_lt(b.name@, a.name@),
        SortKey::NameDesc => !lex_lt(a.name@, b.name@),
    }
}

/// Every sort order relates any two records one way or the other.
pub proof fn lemma_key_total(k: SortKey, a: Country, b: Country)
    ensures
        key_le(k, a, b) || key_le(k, b, a),
{
    lemma_lex_asym(a.name@, b.name@);
}

/// Every sort order is transitive.
pub proof fn lemma_key_trans(k: SortKey, a: Country, b: Country, c: Country)
    requires
        key_le(k, a, b),
        key_le(k, b, c),
    ensures
        key_le(k, a, c),
{
    let (x, y, z) = (a.name@, b.name@, c.name@);
    lemma_lex_total(x, y);
    lemma_lex_total(y, z);
    lemma_lex_total(x, z);
    if lex_lt(z, x) && lex_lt(x, y) {
        lemma_lex_trans(z, x, y);
    }
    if lex_lt(y, z) && lex_lt(z, x) {
        lemma_lex_trans(y, z, x);
    }
    if lex_lt(x, z) && lex_lt(y, x) {
        lemma_lex_trans(y, x, z);
    }
    if lex_lt(z, y) && lex_lt(x, z) {
        lemma_lex_trans(x, z, y);
    }
}

/// Every record of `s` may stand before every later one in the order `k`.
pub open spec fn sorted_by(k: SortKey, s: Seq<Country>) -> bool {
    forall|i: int, j: int| 0 <= i < j < s.len() ==> key_le(k, #[trigger] s[i], #[trigger] s[j])
}

/// A record passes the filters: each given one must match exactly.
pub open spec fn passes(c: Country, region: Option<String>, currency: Option<String>) -> bool {
    &&& (region matches Some(r) ==> (c.region matches Some(x) && x@ == r@))
    &&& (currency matches Some(k) ==> (c.currency_code matches Some(x) && x@ == k@))
}

/// The records that pass the filters, in storage order.
pub open spec fn filtered(rows: Seq<Country>, region: Option<String>, currency: Option<String>) -> Seq<Country>
    decreases rows.len(),
{
    if rows.len() == 0 {
        Seq::empty()
    } else {
        let p = filtered(rows.drop_last(), region, currency);
        if passes(rows.last(), region, currency) {
            p.push(rows.last())
        } else {
            p
        }
    }
}

/// The sort key that `s` names.
pub fn parse_sort_key(s: &str) -> (r: Option<SortKey>)
    ensures
        r == sort_key_of(s@),
{
    let t = String::from_str(s);
    if t == String::from_str("gdp_desc") {
        Some(SortKey::GdpDesc)
    } else if t == String::from_str("gdp_asc") {
        Some(SortKey::GdpAsc)
    } else if t == String::from_str("pop_desc") {
        Some(SortKey::PopDesc)
    } else if t == String::from_str("pop_asc") {
        Some(SortKey::PopAsc)
    } else if t == String::from_str("name_asc") {
        Some(SortKey::NameAsc)
    } else if t == String::from_str("name_desc") {
        Some(SortKey::NameDesc)
    } else {
        None
    }
}

/// Whether `a` comes strictly before `b` in character order.
pub fn lex_less(a: &String, b: &String) -> (r: bool)
    ensures
        r == lex_lt(a@, b@),
{
    let la = a.as_str().unicode_len();
    let lb = b.as_str().unicode_len();
    let mut i: usize = 0;
    assert(a@.skip(0) =~= a@);
    assert(b@.skip(0) =~= b@);
    while i < la && i < lb
        invariant
            la == a@.len(),
            lb == b@.len(),
            i <= la,
            i <= lb,
            lex_lt(a@, b@) == lex_lt(a@.skip(i as int), b@.skip(i as int)),
        decreases la - i,
    {
        let ca = a.as_str().get_char(i);
        let cb = b.as_str().get_char(i);
        assert(a@.skip(i as int)[0] == ca);
        assert(b@.skip(i as int)[0] == cb);
        if ca != cb {
            return ca < cb;
        }
        assert(a@.skip(i as int).drop_first() =~= a@.skip(i + 1));
        assert(b@.skip(i as int).drop_first() =~= b@.skip(i + 1));
        i = i + 1;
    }
    lb > i
}

fn opt_str_eq(a: &Option<String>, b: &String) -> (r: bool)
    ensures
        r == (a matches Some(x) && x@ == b@),
{
    match a {
        Some(x) => *x == *b,
        None => false,
    }
}

/// Whether `a` may stand before `b` in the order `k`.
pub fn precedes(k: SortKey, a: &Country, b: &Country) -> (r: bool)
    ensures
        r == key_le(k, *a, *b),
{
    match k {
        SortKey::GdpDesc => !gdp_less(a, b),
        SortKey::GdpAsc => !gdp_less(b, a),
        SortKey::PopDesc => b.population <= a.population,
        SortKey::PopAsc => a.population <= b.population,
        SortKey::NameAsc => !lex_less(&b.name, &a.name),
        SortKey::NameDesc => !lex_less(&a.name, &b.name),
    }
}

fn gdp_less(a: &Country, b: &Country) -> (r: bool)
    ensures
        r == (gdp_rank(*a) < gdp_rank(*b)),
{
    match (a.estimated_gdp, b.estimated_gdp) {
        (Some(x), Some(y)) => x < y,
        (None, Some(_)) => true,
        _ => false,
    }
}

fn passes_filters(c: &Country, region: &Option<String>, currency: &Option<String>) -> (r: bool)
    ensures
        r == passes(*c, *region, *currency),
{
    let region_ok = match region {
        Some(r) => opt_str_eq(&c.region, r),
        None => true,
    };
    let currency_ok = match currency {
        Some(k) => opt_str_eq(&c.currency_code, k),
        None => true,
    };
    region_ok && currency_ok
}

/// Copies of the records that pass the filters, in storage order.
pub fn filter_rows(rows: &Vec<Country>, region: &Option<String>, currency: &Option<String>) -> (r: Vec<Country>)
    ensures
        r@ == filtered(rows@, *region, *currency),
{
    let mut out: Vec<Country> = Vec::new();
    let mut i: usize = 0;
    assert(rows@.subrange(0, 0) =~= Seq::<Country>::empty());
    while i < rows.len()
        invariant
            i <= rows@.len(),
            out@ == filtered(rows@.subrange(0, i as int), *region, *currency),
        decreases rows@.len() - i,
    {
        assert(rows@.subrange(0, i + 1).drop_last() =~= rows@.subrange(0, i as int));
        if passes_filters(&rows[i], region, currency) {
            out.push(rows[i].duplicate());
        }
        i = i + 1;
    }
    assert(rows@.subrange(0, rows@.len() as int) =~= rows@);
    out
}

/// The records of `v` in the order `k`, equal ones in their order in `v`.
pub fn sort_rows(v: &Vec<Country>, k: SortKey) -> (r: Vec<Country>)
    ensures
        r@.to_multiset() == v@.to_multiset(),
        sorted_by(k, r@),
{
    let mut out: Vec<Country> = Vec::new();
    let mut i: usize = 0;
    assert(v@.subrange(0, 0) =~= Seq::<Country>::empty());
    while i < v.len()
        invariant
            i <= v@.len(),
            sorted_by(k, out@),
            out@.to_multiset() == v@.subrange(0, i as int).to_multiset(),
        decreases v@.len() - i,
    {
        let x = v[i].duplicate();
        let mut p: usize = 0;
        while p < out.len() && precedes(k, &out[p], &x)
            invariant
                p <= out@.len(),
                forall|q: int| 0 <= q < p ==> key_le(k, #[trigger] out@[q], x),
            decreases out@.len() - p,
        {
            p = p + 1;
        }
        let ghost before = out@;
        out.insert(p, x);
        proof {
            vstd::seq_lib::to_multiset_insert(before, p as int, x);
            assert(v@.subrange(0, i + 1) =~= v@.subrange(0, i as int).push(v@[i as int]));
            vstd::seq_lib::to_multiset_build(v@.subrange(0, i as int), v@[i as int]);
            if p < before.len() {
                lemma_key_total(k, before[p as int], x);
            }
            assert forall|a: int, b: int| 0 <= a < b < out@.len() implies key_le(k, #[trigger] out@[a], #[trigger] out@[b]) by {
                if b < p {
                    assert(out@[a] == before[a] && out@[b] == before[b]);
                } else if b == p {
                    assert(out@[a] == before[a]);
                } else if a < p {
                    assert(out@[a] == before[a] && out@[b] == before[b - 1]);
                } else if a == p {
                    assert(out@[b] == before[b - 1]);
                    if b - 1 > p {
                        assert(key_le(k, before[p as int], before[b - 1]));
                        lemma_key_trans(k, x, before[p as int], before[b - 1]);
                    }
                } else {
                    assert(out@[a] == before[a - 1] && out@[b] == before[b - 1]);
                }
            }
        }
        i = i + 1;
    }
    assert(v@.subrange(0, v@.len() as int) =~= v@);
    out
}

/// The records that pass the query's filters (both, when both are given),
/// in the order its sort key names. An unrecognized or absent key leaves
/// them in storage order.
pub fn get_all_countries(store: &CountryStore, query: GetCountriesQuery) -> (r: Result<Vec<Country>, AppError>)
    ensures
        r matches Ok(v) && ({
            let f = filtered(store.rows(), query.region, query.currency);
            match sort_of(query.sort) {
                Some(k) => v@.to_multiset() == f.to_multiset() && sorted_by(k, v@),
                None => v@ == f,
            }
        }),
{
    let rows = filter_rows(store.records(), &query.region, &query.currency);
    let key = match &query.sort {
        Some(s) => parse_sort_key(s.as_str()),
        None => None,
    };
    match key {
        Some(k) => Ok(sort_rows(&rows, k)),
        None => Ok(rows),
    }
}

} // verus!
