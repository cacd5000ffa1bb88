use vstd::prelude::*;
use chrono::SubsecRound;
use rand::Rng;
use crate::enrich::{enrich_country, enriched, MULTIPLIER_MAX, MULTIPLIER_MIN};
use crate::error::{not_found_message, not_found_text, AppError};
use crate::models::{AppStatus, Country, RestCountryResponse, Timestamp};
use crate::rates::RateTable;

verus! {

/// How many records a refresh reports as its top by estimated GDP.
pub const TOP_COUNT: usize = 5;

/// Relies on rand's `thread_rng` and `Rng::gen_range` over an inclusive
/// range: the value drawn lies within the bounds.
#[verifier::external_body]
fn random_between(lo: u64, hi: u64) -> (r: u64)
    requires
        lo <= hi,
    ensures
        lo <= r <= hi,
{
    rand::thread_rng().gen_range(lo..=hi)
}

/// Relies on chrono's `Utc::now`, `SubsecRound::round_subsecs` and
/// `DateTime::timestamp_millis`: the current time, rounded to a tenth of a
/// second, in milliseconds since the epoch.
#[verifier::external_body]
pub(crate) fn now_millis() -> (r: i64) {
    chrono::Utc::now().round_subsecs(1).timestamp_millis()
}

/// No two records share a name.
pub open spec fn names_unique(rows: Seq<Country>) -> bool {
    forall|i: int, j: int|
        0 <= i < rows.len() && 0 <= j < rows.len() && i != j ==> rows[i].name@ != rows[j].name@
}

pub open spec fn has_name(rows: Seq<Country>, name: Seq<char>) -> bool {
    exists|i: int| 0 <= i < rows.len() && rows[i].name@ == name
}

/// The position of the record named `name` (meaningful when there is one).
pub open spec fn index_of(rows: Seq<Country>, name: Seq<char>) -> int {
    choose|i: int| 0 <= i < rows.len() && rows[i].name@ == name
}

/// The records after writing `c` keyed by its name: it replaces the record
/// of that name in place, or is added at the end.
pub open spec fn upserted(rows: Seq<Country>, c: Country) -> Seq<Country> {
    if has_name(rows, c.name@) {
        rows.update(index_of(rows, c.name@), c)
    } else {
        rows.push(c)
    }
}

/// The records after a refresh of `cs` in order, the i-th with growth
/// multiplier `ms[i]`, all stamped `at`.
pub open spec fn refreshed_rows(
    rows: Seq<Country>,
    cs: Seq<RestCountryResponse>,
    rates: Map<Seq<char>, u64>,
    ms: Seq<u64>,
    at: Timestamp,
) -> Seq<Country>
    decreases cs.len(),
{
    if cs.len() == 0 || ms.len() != cs.len() {
        rows
    } else {
        upserted(
            refreshed_rows(rows, cs.drop_last(), rates, ms.drop_last(), at),
            enriched(cs.last(), rates, ms.last() as int, at),
        )
    }
}

/// `top` holds the (at most `k`) records of `rows` with the highest
/// estimated GDP, highest first; records without one are left out.
pub open spec fn is_top_by_gdp(rows: Seq<Country>, top: Seq<Country>, k: int) -> bool {
    &&& top.len() <= k
    &&& forall|j: int| 0 <= j < top.len() ==> (#[trigger] top[j]).estimated_gdp is Some && rows.contains(top[j])
    &&& forall|a: int, b: int|
        0 <= a < b < top.len() ==> (#[trigger] top[a]).name@ != (#[trigger] top[b]).name@
            && top[b].estimated_gdp.unwrap() <= top[a].estimated_gdp.unwrap()
    &&& forall|i: int|
        0 <= i < rows.len() && (#[trigger] rows[i]).estimated_gdp is Some
            && !(exists|j: int| 0 <= j < top.len() && top[j].name@ == rows[i].name@)
            ==> top.len() == k && (k == 0 || rows[i].estimated_gdp.unwrap() <= top[k - 1].estimated_gdp.unwrap())
}

/// Writing a record keeps names unique.
pub proof fn lemma_upserted_unique(rows: Seq<Country>, c: Country)
    requires
        names_unique(rows),
    ensures
        names_unique(upserted(rows, c)),
        has_name(upserted(rows, c), c.name@),
{
    let r = upserted(rows, c);
    if has_name(rows, c.name@) {
        let k = index_of(rows, c.name@);
        assert(r[k] == c);
    } else {
        assert(r[rows.len() as int] == c);
    }
}

/// A refresh keeps names unique.
pub proof fn lemma_refreshed_unique(
    rows: Seq<Country>,
    cs: Seq<RestCountryResponse>,
    rates: Map<Seq<char>, u64>,
    ms: Seq<u64>,
    at: Timestamp,
)
    requires
        names_unique(rows),
    ensures
        names_unique(refreshed_rows(rows, cs, rates, ms, at)),
    decreases cs.len(),
{
    if cs.len() > 0 && ms.len() == cs.len() {
        lemma_refreshed_unique(rows, cs.drop_last(), rates, ms.drop_last(), at);
        lemma_upserted_unique(
            refreshed_rows(rows, cs.drop_last(), rates, ms.drop_last(), at),
            enriched(cs.last(), rates, ms.last() as int, at),
        );
    }
}

/// After a refresh, each country of the batch that no later country of the
/// batch shares a name with is stored as exactly the record that its
/// currency, the rates, its multiplier and the refresh time give.
pub proof fn lemma_refreshed_record(
    rows: Seq<Country>,
    cs: Seq<RestCountryResponse>,
    rates: Map<Seq<char>, u64>,
    ms: Seq<u64>,
    at: Timestamp,
    i: int,
)
    requires
        names_unique(rows),
        ms.len() == cs.len(),
        0 <= i < cs.len(),
        forall|j: int| i < j < cs.len() ==> (#[trigger] cs[j]).name@ != cs[i].name@,
    ensures
        ({
            let r = refreshed_rows(rows, cs, rates, ms, at);
            &&& has_name(r, cs[i].name@)
            &&& r[index_of(r, cs[i].name@)] == enriched(cs[i], rates, ms[i] as int, at)
        }),
    decreases cs.len(),
{
    let n = cs.len() - 1;
    let prev = refreshed_rows(rows, cs.drop_last(), rates, ms.drop_last(), at);
    let c = enriched(cs.last(), rates, ms.last() as int, at);
    let r = refreshed_rows(rows, cs, rates, ms, at);
    assert(r == upserted(prev, c));
    lemma_refreshed_unique(rows, cs.drop_last(), rates, ms.drop_last(), at);
    lemma_upserted_unique(prev, c);
    let name = cs[i].name@;
    if i == n {
        let k = if has_name(prev, name) { index_of(prev, name) } else { prev.len() as int };
        assert(r[k] == c);
        assert(r[index_of(r, name)].name@ == name);
    } else {
        assert forall|j: int| i < j < cs.drop_last().len() implies (#[trigger] cs.drop_last()[j]).name@
            != cs.drop_last()[i].name@ by {
            assert(cs.drop_last()[j] == cs[j]);
        }
        lemma_refreshed_record(rows, cs.drop_last(), rates, ms.drop_last(), at, i);
        assert(cs.drop_last()[i] == cs[i]);
        assert(ms.drop_last()[i] == ms[i]);
        let k = index_of(prev, name);
        assert(cs[n].name@ != name);
        assert(c.name@ == cs[n].name@);
        if has_name(prev, c.name@) {
            let m = index_of(prev, c.name@);
            assert(m != k);
            assert(r[k] == prev[k]);
        } else {
            assert(r[k] == prev[k]);
        }
        assert(r[index_of(r, name)].name@ == name);
    }
}

/// The stored country records, in storage order, and the status singleton.
pub struct CountryStore {
    rows: Vec<Country>,
    status: AppStatus,
}

impl CountryStore {
    pub closed spec fn rows(&self) -> Seq<Country> {
        self.rows@
    }

    pub closed spec fn status(&self) -> AppStatus {
        self.status
    }

    pub closed spec fn wf(&self) -> bool {
        names_unique(self.rows@)
    }

    /// An empty store whose status records no refresh yet.
    pub fn new() -> (r: CountryStore)
        ensures
            r.wf(),
            r.rows() == Seq::<Country>::empty(),
            r.status() == (AppStatus { total_countries: 0, last_refreshed_at: None }),
    {
        CountryStore { rows: Vec::new(), status: AppStatus { total_countries: 0, last_refreshed_at: None } }
    }

    /// The number of stored records.
    pub fn len(&self) -> (r: usize)
        ensures
            r == self.rows().len(),
    {
        self.rows.len()
    }

    /// The stored records, in storage order.
    pub fn records(&self) -> (r: &Vec<Country>)
        ensures
            r@ == self.rows(),
    {
        &self.rows
    }

    /// Writes `c` keyed by its name: replaces the record of that name, or
    /// adds it at the end.
    pub fn upsert(&mut self, c: Country)
        requires
            old(self).wf(),
        ensures
            final(self).wf(),
            final(self).rows() == upserted(old(self).rows(), c),
            final(self).status() == old(self).status(),
    {
        upsert_rows(&mut self.rows, c);
    }
}

fn find_name(rows: &Vec<Country>, name: &String) -> (r: Option<usize>)
    ensures
        match r {
            Some(i) => i < rows@.len() && rows@[i as int].name@ == name@,
            None => !has_name(rows@, name@),
        },
{
    let mut i: usize = 0;
    while i < rows.len()
        invariant
            i <= rows@.len(),
            forall|j: int| 0 <= j < i ==> rows@[j].name@ != name@,
        decreases rows@.len() - i,
    {
        if rows[i].name == *name {
            return Some(i);
        }
        i = i + 1;
    }
    None
}

fn upsert_rows(rows: &mut Vec<Country>, c: Country)
    requires
        names_unique(old(rows)@),
    ensures
        names_unique(final(rows)@),
        final(rows)@ == upserted(old(rows)@, c),
{
    match find_name(rows, &c.name) {
        Some(i) => {
            let ghost j = index_of(rows@, c.name@);
            assert(rows@[j].name@ == c.name@);
            assert(j == i);
            rows.set(i, c);
        },
        None => {
            rows.push(c);
        },
    }
}

fn clone_rows(rows: &Vec<Country>) -> (r: Vec<Country>)
    ensures
        r@ == rows@,
{
    let mut out: Vec<Country> = Vec::new();
    let mut i: usize = 0;
    while i < rows.len()
        invariant
            i <= rows@.len(),
            out@ == rows@.subrange(0, i as int),
        decreases rows@.len() - i,
    {
        out.push(rows[i].duplicate());
        i = i + 1;
        assert(out@ =~= rows@.subrange(0, i as int));
    }
    assert(rows@.subrange(0, rows@.len() as int) =~= rows@);
    out
}

/// The (at most `k`) records of `rows` with the highest estimated GDP,
/// highest first; among equal values the earlier record comes first.
pub fn top_by_gdp(rows: &Vec<Country>, k: usize) -> (r: Vec<Country>)
    requires
        names_unique(rows@),
    ensures
        is_top_by_gdp(rows@, r@, k as int),
{
    let n = rows.len();
    let mut picked: Vec<bool> = Vec::new();
    let mut z: usize = 0;
    while z < n
        invariant
            z <= n,
            n == rows@.len(),
            picked@.len() == z,
            forall|i: int| 0 <= i < z ==> !picked@[i],
        decreases n - z,
    {
        picked.push(false);
        z = z + 1;
    }
    let mut out: Vec<Country> = Vec::new();
    let ghost mut idx: Seq<int> = Seq::empty();
    let mut done = false;
    while !done && out.len() < k
        invariant
            n == rows@.len(),
            names_unique(rows@),
            picked@.len() == n,
            out@.len() == idx.len() <= k,
            forall|j: int| 0 <= j < idx.len() ==> 0 <= #[trigger] idx[j] < n && out@[j] == rows@[idx[j]]
                && picked@[idx[j]] && out@[j].estimated_gdp is Some,
            forall|i: int| 0 <= i < n && #[trigger] picked@[i] ==> exists|j: int| 0 <= j < idx.len() && idx[j] == i,
            forall|a: int, b: int| 0 <= a < b < idx.len() ==> #[trigger] idx[a] != #[trigger] idx[b]
                && out@[b].estimated_gdp.unwrap() <= out@[a].estimated_gdp.unwrap(),
            forall|i: int| 0 <= i < n && !(#[trigger] picked@[i]) && rows@[i].estimated_gdp is Some && idx.len() > 0
                ==> rows@[i].estimated_gdp.unwrap() <= out@[idx.len() - 1].estimated_gdp.unwrap(),
            done ==> forall|i: int| 0 <= i < n ==> #[trigger] picked@[i] || rows@[i].estimated_gdp is None,
        decreases k - out@.len() + (if done { 0int } else { 1int }),
    {
        let mut best: Option<usize> = None;
        let mut i: usize = 0;
        while i < n
            invariant
                i <= n,
                n == rows@.len(),
                picked@.len() == n,
                match best {
                    Some(b) => b < i && !picked@[b as int] && rows@[b as int].estimated_gdp is Some
                        && forall|i2: int| 0 <= i2 < i && !(#[trigger] picked@[i2]) && rows@[i2].estimated_gdp is Some
                            ==> rows@[i2].estimated_gdp.unwrap() <= rows@[b as int].estimated_gdp.unwrap(),
                    None => forall|i2: int| 0 <= i2 < i ==> #[trigger] picked@[i2] || rows@[i2].estimated_gdp is None,
                },
            decreases n - i,
        {
            if !picked[i] {
                if let Some(g) = rows[i].estimated_gdp {
                    match best {
                        Some(b) => {
                            if g > rows[b].estimated_gdp.unwrap() {
                                best = Some(i);
                            }
                        },
                        None => {
                            best = Some(i);
                        },
                    }
                }
            }
            i = i + 1;
        }
        match best {
            None => {
                done = true;
            },
            Some(b) => {
                let ghost old_idx = idx;
                proof {
                    assert forall|j: int| 0 <= j < idx.len() implies #[trigger] idx[j] != b as int by {
                        assert(picked@[idx[j]]);
                    }
                    if idx.len() > 0 {
                        let last = idx.len() - 1;
                        assert forall|a: int| 0 <= a < idx.len() implies rows@[b as int].estimated_gdp.unwrap()
                            <= (#[trigger] out@[a]).estimated_gdp.unwrap() by {
                            if a < last {
                                assert(idx[a] != idx[last]);
                            }
                        }
                    }
                }
                picked.set(b, true);
                out.push(rows[b].duplicate());
                proof {
                    idx = idx.push(b as int);
                    assert forall|i: int| 0 <= i < n && #[trigger] picked@[i] implies exists|j: int|
                        0 <= j < idx.len() && idx[j] == i by {
                        if i == b as int {
                            assert(idx[idx.len() - 1] == i);
                        } else {
                            let j = choose|j: int| 0 <= j < old_idx.len() && old_idx[j] == i;
                            assert(idx[j] == i);
                        }
                    }
                }
            },
        }
    }
    proof {
        assert forall|j: int| 0 <= j < out@.len() implies (#[trigger] out@[j]).estimated_gdp is Some
            && rows@.contains(out@[j]) by {
            assert(out@[j] == rows@[idx[j]]);
        }
        assert forall|a: int, b: int| 0 <= a < b < out@.len() implies (#[trigger] out@[a]).name@
            != (#[trigger] out@[b]).name@ && out@[b].estimated_gdp.unwrap() <= out@[a].estimated_gdp.unwrap() by {
            assert(idx[a] != idx[b]);
        }
        assert forall|i: int| 0 <= i < rows@.len() && (#[trigger] rows@[i]).estimated_gdp is Some
            && !(exists|j: int| 0 <= j < out@.len() && out@[j].name@ == rows@[i].name@)
            implies out@.len() == k && (k == 0 || rows@[i].estimated_gdp.unwrap() <= out@[k - 1].estimated_gdp.unwrap()) by {
            if picked@[i] {
                let j = choose|j: int| 0 <= j < idx.len() && idx[j] == i;
                assert(out@[j].name@ == rows@[i].name@);
            }
        }
    }
    out
}

/// Applies a refresh of `countries` as one transaction: each country is
/// enriched with `rates`, the i-th with growth multiplier `multipliers[i]`,
/// and written keyed by its name, all stamped `at`; then the status records
/// the batch. The records and the status change together or not at all.
pub fn apply_refresh(
    store: &mut CountryStore,
    countries: &Vec<RestCountryResponse>,
    rates: &RateTable,
    multipliers: &Vec<u64>,
    at: Timestamp,
) -> (r: Result<(AppStatus, Vec<Country>), AppError>)
    requires
        old(store).wf(),
        rates.wf(),
        multipliers@.len() == countries@.len(),
        forall|i: int| 0 <= i < multipliers@.len() ==> MULTIPLIER_MIN <= #[trigger] multipliers@[i] <= MULTIPLIER_MAX,
    ensures
        final(store).wf(),
        r is Ok <==> countries@.len() <= i32::MAX,
        match r {
            Ok((status, top)) => {
                &&& final(store).rows() == refreshed_rows(old(store).rows(), countries@, rates@, multipliers@, at)
                &&& status == (AppStatus { total_countries: countries@.len() as i32, last_refreshed_at: Some(at) })
                &&& final(store).status() == status
                &&& is_top_by_gdp(final(store).rows(), top@, TOP_COUNT as int)
            },
            Err(e) => {
                &&& *final(store) == *old(store)
                &&& e is DatabaseError
            },
        },
{
    let mut staged = clone_rows(&store.rows);
    let mut count: i32 = 0;
    let mut i: usize = 0;
    while i < countries.len()
        invariant
            i <= countries@.len(),
            multipliers@.len() == countries@.len(),
            forall|j: int| 0 <= j < multipliers@.len() ==> MULTIPLIER_MIN <= #[trigger] multipliers@[j] <= MULTIPLIER_MAX,
            rates.wf(),
            count == i,
            names_unique(staged@),
            staged@ == refreshed_rows(
                store.rows@,
                countries@.subrange(0, i as int),
                rates@,
                multipliers@.subrange(0, i as int),
                at,
            ),
            *store == *old(store),
            names_unique(store.rows@),
        decreases countries@.len() - i,
    {
        if count == i32::MAX {
            return Err(AppError::DatabaseError(String::from_str("row counter out of range")));
        }
        count = count + 1;
        let c = enrich_country(&countries[i], rates, multipliers[i], at);
        upsert_rows(&mut staged, c);
        proof {
            let cs = countries@.subrange(0, i + 1);
            let ms = multipliers@.subrange(0, i + 1);
            assert(cs.drop_last() =~= countries@.subrange(0, i as int));
            assert(ms.drop_last() =~= multipliers@.subrange(0, i as int));
        }
        i = i + 1;
    }
    assert(countries@.subrange(0, countries@.len() as int) =~= countries@);
    assert(multipliers@.subrange(0, multipliers@.len() as int) =~= multipliers@);
    let status = AppStatus { total_countries: count, last_refreshed_at: Some(at) };
    let top = top_by_gdp(&staged, TOP_COUNT);
    store.rows = staged;
    store.status = status;
    Ok((status, top))
}

/// Refreshes the store from `countries` and `rates`: draws a growth
/// multiplier per country from [1000, 2000] and takes the current time, then
/// applies the refresh as one transaction. Returns the new status and the
/// top records by estimated GDP; on failure the store is left as it was.
pub fn refresh_data(
    store: &mut CountryStore,
    countries: Vec<RestCountryResponse>,
    rates: RateTable,
) -> (r: Result<(AppStatus, Vec<Country>), AppError>)
    requires
        old(store).wf(),
        rates.wf(),
    ensures
        final(store).wf(),
        r is Ok <==> countries@.len() <= i32::MAX,
        match r {
            Ok((status, top)) => exists|ms: Seq<u64>, t: i64|
                {
                    &&& ms.len() == countries@.len()
                    &&& forall|i: int| 0 <= i < ms.len() ==> MULTIPLIER_MIN <= #[trigger] ms[i] <= MULTIPLIER_MAX
                    &&& final(store).rows() == refreshed_rows(
                        old(store).rows(),
                        countries@,
                        rates@,
                        ms,
                        Timestamp { millis: t },
                    )
                    &&& status == (AppStatus {
                        total_countries: countries@.len() as i32,
                        last_refreshed_at: Some(Timestamp { millis: t }),
                    })
                    &&& final(store).status() == status
                    &&& is_top_by_gdp(final(store).rows(), top@, TOP_COUNT as int)
                },
            Err(_) => *final(store) == *old(store),
        },
{
    let at = Timestamp { millis: now_millis() };
    let mut multipliers: Vec<u64> = Vec::new();
    let mut i: usize = 0;
    while i < countries.len()
        invariant
            i <= countries@.len(),
            multipliers@.len() == i,
            forall|j: int| 0 <= j < i ==> MULTIPLIER_MIN <= #[trigger] multipliers@[j] <= MULTIPLIER_MAX,
        decreases countries@.len() - i,
    {
        multipliers.push(random_between(MULTIPLIER_MIN, MULTIPLIER_MAX));
        i = i + 1;
    }
    let r = apply_refresh(store, &countries, &rates, &multipliers, at);
    proof {
        if r is Ok {
            assert(at == Timestamp { millis: at.millis });
        }
    }
    r
}

/// The record named `name`.
pub fn get_country_by_name(store: &CountryStore, name: &str) -> (r: Result<Country, AppError>)
    requires
        store.wf(),
    ensures
        match r {
            Ok(c) => has_name(store.rows(), name@) && c == store.rows()[index_of(store.rows(), name@)],
            Err(e) => !has_name(store.rows(), name@) && (e matches AppError::NotFound(m) && m@ == not_found_text(name@)),
        },
{
    let key = String::from_str(name);
    match find_name(&store.rows, &key) {
        Some(i) => {
            let ghost j = index_of(store.rows@, name@);
            assert(store.rows@[j].name@ == name@);
            assert(j == i);
            Ok(store.rows[i].duplicate())
        },
        None => Err(AppError::NotFound(not_found_message(name))),
    }
}

/// Deletes the record named `name`. Exactly one record goes when there is
/// one; otherwise the store is left as it was and the result is `NotFound`.
pub fn delete_country_by_name(store: &mut CountryStore, name: &str) -> (r: Result<(), AppError>)
    requires
        old(store).wf(),
    ensures
        final(store).wf(),
        final(store).status() == old(store).status(),
        r is Ok <==> has_name(old(store).rows(), name@),
        match r {
            Ok(_) => {
                &&& final(store).rows() == old(store).rows().remove(index_of(old(store).rows(), name@))
                &&& final(store).rows().len() == old(store).rows().len() - 1
                &&& !has_name(final(store).rows(), name@)
            },
            Err(e) => {
                &&& final(store).rows() == old(store).rows()
                &&& (e matches AppError::NotFound(m) && m@ == not_found_text(name@))
            },
        },
{
    let key = String::from_str(name);
    match find_name(&store.rows, &key) {
        Some(i) => {
            let ghost j = index_of(store.rows@, name@);
            let ghost before = store.rows@;
            assert(before[j].name@ == name@);
            assert(j == i);
            store.rows.remove(i);
            assert forall|a: int| 0 <= a < store.rows@.len() implies (#[trigger] store.rows@[a]).name@ != name@ by {
                if a < i {
                    assert(store.rows@[a] == before[a]);
                } else {
                    assert(store.rows@[a] == before[a + 1]);
                }
            }
            Ok(())
        },
        None => Err(AppError::NotFound(not_found_message(name))),
    }
}

/// The status singleton.
pub fn get_app_status(store: &CountryStore) -> (r: Result<AppStatus, AppError>)
    ensures
        r == Ok::<AppStatus, AppError>(store.status()),
{
    Ok(store.status)
}

} // verus!
