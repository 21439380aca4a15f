use vstd::prelude::*;
use crate::date::Date;
use crate::dto::ProfitDay;

verus! {

/// Compare two strings character by character.
pub fn str_eq(a: &str, b: &str) -> (r: bool)
    ensures
        r == (a@ == b@),
{
    let n = a.unicode_len();
    let m = b.unicode_len();
    if n != m {
        return false;
    }
    let mut i: usize = 0;
    while i < n
        invariant
            i <= n,
            n == a@.len(),
            n == b@.len(),
            forall|k: int| 0 <= k < i ==> a@[k] == b@[k],
        decreases n - i,
    {
        if a.get_char(i) != b.get_char(i) {
            return false;
        }
        i = i + 1;
    }
    proof {
        assert(a@ =~= b@);
    }
    true
}

/// One stored credential or setting: a key and its value.
#[derive(Debug)]
pub struct Config {
    pub key: String,
    pub value: String,
}

/// No two rows share a key.
pub open spec fn distinct_config_keys(rows: Seq<Config>) -> bool {
    forall|p: int, q: int| 0 <= p < q < rows.len() ==> rows[p].key@ != rows[q].key@
}

/// The rows as a map from key to value.
pub open spec fn map_of_configs(rows: Seq<Config>) -> Map<Seq<char>, Seq<char>>
    decreases rows.len(),
{
    if rows.len() == 0 {
        Map::empty()
    } else {
        map_of_configs(rows.drop_last()).insert(rows.last().key@, rows.last().value@)
    }
}

pub proof fn lemma_map_of_configs_contains(rows: Seq<Config>, k: Seq<char>)
    ensures
        map_of_configs(rows).contains_key(k) <==> exists|p: int|
            0 <= p < rows.len() && rows[p].key@ == k,
    decreases rows.len(),
{
    if rows.len() > 0 {
        lemma_map_of_configs_contains(rows.drop_last(), k);
        if map_of_configs(rows).contains_key(k) {
            if rows.last().key@ != k {
                let p = choose|p: int| 0 <= p < rows.len() - 1 && rows.drop_last()[p].key@ == k;
                assert(rows[p].key@ == k);
            }
        }
        if exists|p: int| 0 <= p < rows.len() && rows[p].key@ == k {
            let p = choose|p: int| 0 <= p < rows.len() && rows[p].key@ == k;
            if p < rows.len() - 1 {
                assert(rows.drop_last()[p].key@ == k);
            }
        }
    }
}

pub proof fn lemma_map_of_configs_at(rows: Seq<Config>, p: int)
    requires
        distinct_config_keys(rows),
        0 <= p < rows.len(),
    ensures
        map_of_configs(rows).contains_key(rows[p].key@),
        map_of_configs(rows)[rows[p].key@] == rows[p].value@,
    decreases rows.len(),
{
    if p < rows.len() - 1 {
        assert(distinct_config_keys(rows.drop_last()));
        assert(rows.drop_last()[p] == rows[p]);
        lemma_map_of_configs_at(rows.drop_last(), p);
        assert(rows.last().key@ != rows[p].key@);
    }
}

pub proof fn lemma_map_of_configs_update(rows: Seq<Config>, p: int, c: Config)
    requires
        distinct_config_keys(rows),
        0 <= p < rows.len(),
        rows[p].key@ == c.key@,
    ensures
        map_of_configs(rows.update(p, c)) =~= map_of_configs(rows).insert(c.key@, c.value@),
    decreases rows.len(),
{
    let updated = rows.update(p, c);
    if p == rows.len() - 1 {
        assert(updated.drop_last() =~= rows.drop_last());
        assert(updated.last() == c);
    } else {
        assert(distinct_config_keys(rows.drop_last()));
        assert(rows.drop_last()[p] == rows[p]);
        lemma_map_of_configs_update(rows.drop_last(), p, c);
        assert(updated.drop_last() =~= rows.drop_last().update(p, c));
        assert(updated.last() == rows.last());
        assert(rows.last().key@ != c.key@);
    }
}

/// The key/value table of the config store.
#[derive(Debug)]
pub struct ConfigTable {
    pub rows: Vec<Config>,
}

impl ConfigTable {
    /// At most one row per key.
    pub open spec fn wf(self) -> bool {
        distinct_config_keys(self.rows@)
    }

    /// The table as a map from key to value.
    pub open spec fn as_map(self) -> Map<Seq<char>, Seq<char>> {
        map_of_configs(self.rows@)
    }

    pub fn new() -> (t: ConfigTable)
        ensures
            t.wf(),
            t.as_map() == Map::<Seq<char>, Seq<char>>::empty(),
    {
        ConfigTable { rows: Vec::new() }
    }

    /// Look a key up: `Some` of its stored value exactly when the key is
    /// present.
    pub fn get(&self, key: &str) -> (r: Option<&String>)
        requires
            self.wf(),
        ensures
            match r {
                Some(v) => self.as_map().contains_key(key@) && v@ == self.as_map()[key@],
                None => !self.as_map().contains_key(key@),
            },
    {
        let n = self.rows.len();
        let mut i: usize = 0;
        while i < n
            invariant
                i <= n == self.rows@.len(),
                self.wf(),
                forall|k: int| 0 <= k < i ==> self.rows@[k].key@ != key@,
            decreases n - i,
        {
            if str_eq(self.rows[i].key.as_str(), key) {
                proof {
                    lemma_map_of_configs_at(self.rows@, i as int);
                }
                return Some(&self.rows[i].value);
            }
            i = i + 1;
        }
        proof {
            lemma_map_of_configs_contains(self.rows@, key@);
        }
        None
    }

    /// Write a key: insert the row if the key is absent, else replace the
    /// stored value in place. Never duplicates a key.
    pub fn set(&mut self, key: String, value: String)
        requires
            old(self).wf(),
        ensures
            final(self).wf(),
            final(self).as_map() == old(self).as_map().insert(key@, value@),
    {
        let n = self.rows.len();
        let mut i: usize = 0;
        while i < n
            invariant
                i <= n == self.rows@.len(),
                self.wf(),
                *self == *old(self),
                forall|k: int| 0 <= k < i ==> self.rows@[k].key@ != key@,
            decreases n - i,
        {
            if str_eq(self.rows[i].key.as_str(), key.as_str()) {
                proof {
                    lemma_map_of_configs_update(
                        self.rows@,
                        i as int,
                        Config { key: key, value: value },
                    );
                }
                self.rows[i] = Config { key, value };
                proof {
                    assert(forall|p: int, q: int|
                        0 <= p < q < self.rows@.len() ==> self.rows@[p].key@
                            != self.rows@[q].key@) by {
                        assert(forall|p: int| 0 <= p < self.rows@.len() && p != i ==> self.rows@[p]
                            == old(self).rows@[p]);
                    }
                }
                return;
            }
            i = i + 1;
        }
        proof {
            lemma_map_of_configs_contains(self.rows@, key@);
            assert(self.rows@.push(Config { key: key, value: value }).drop_last() =~= self.rows@);
        }
        self.rows.push(Config { key, value });
    }
}

/// Law: writing a config key then reading it yields the written value, and
/// a second write to the same key replaces the first. `ConfigTable::set`
/// ensures the table's map becomes `insert(k, v)` while keys stay
/// distinct, and `ConfigTable::get` returns exactly the map's value, so
/// the set-then-get round trip is these map facts.
pub proof fn lemma_config_set_then_get(
    m: Map<Seq<char>, Seq<char>>,
    k: Seq<char>,
    v1: Seq<char>,
    v2: Seq<char>,
)
    ensures
        m.insert(k, v1).contains_key(k),
        m.insert(k, v1)[k] == v1,
        m.insert(k, v1).insert(k, v2)[k] == v2,
{
}

/// The value stored for a day is left alone if the day is already present,
/// else the record is added.
pub open spec fn upsert_ignore(m: Map<Date, i64>, r: ProfitDay) -> Map<Date, i64> {
    if m.contains_key(r.date) {
        m
    } else {
        m.insert(r.date, r.value)
    }
}

/// Law: inserting a record for a day already present leaves the stored
/// value unchanged — whatever value the new record carries — and doing the
/// same insert twice is the same as doing it once.
pub proof fn lemma_upsert_ignore_idempotent(m: Map<Date, i64>, r: ProfitDay)
    ensures
        m.contains_key(r.date) ==> upsert_ignore(m, r) == m,
        upsert_ignore(upsert_ignore(m, r), r) == upsert_ignore(m, r),
        upsert_ignore(m, r).contains_key(r.date),
        m.contains_key(r.date) ==> upsert_ignore(m, r)[r.date] == m[r.date],
{
}

/// No two rows share a day.
pub open spec fn distinct_days(rows: Seq<ProfitDay>) -> bool {
    forall|p: int, q: int| 0 <= p < q < rows.len() ==> rows[p].date != rows[q].date
}

/// The rows as a map from day to value.
pub open spec fn map_of_days(rows: Seq<ProfitDay>) -> Map<Date, i64>
    decreases rows.len(),
{
    if rows.len() == 0 {
        Map::empty()
    } else {
        map_of_days(rows.drop_last()).insert(rows.last().date, rows.last().value)
    }
}

pub proof fn lemma_map_of_days_contains(rows: Seq<ProfitDay>, d: Date)
    ensures
        map_of_days(rows).contains_key(d) <==> exists|p: int|
            0 <= p < rows.len() && rows[p].date == d,
    decreases rows.len(),
{
    if rows.len() > 0 {
        lemma_map_of_days_contains(rows.drop_last(), d);
        if map_of_days(rows).contains_key(d) {
            if rows.last().date != d {
                let p = choose|p: int| 0 <= p < rows.len() - 1 && rows.drop_last()[p].date == d;
                assert(rows[p].date == d);
            }
        }
        if exists|p: int| 0 <= p < rows.len() && rows[p].date == d {
            let p = choose|p: int| 0 <= p < rows.len() && rows[p].date == d;
            if p < rows.len() - 1 {
                assert(rows.drop_last()[p].date == d);
            }
        }
    }
}

/// One of the two date-keyed tables of stored daily values.
#[derive(Debug)]
pub struct ProfitTable {
    pub rows: Vec<ProfitDay>,
}

impl ProfitTable {
    /// At most one row per day.
    pub open spec fn wf(self) -> bool {
        distinct_days(self.rows@)
    }

    /// The table as a map from day to value.
    pub open spec fn as_map(self) -> Map<Date, i64> {
        map_of_days(self.rows@)
    }

    pub fn new() -> (t: ProfitTable)
        ensures
            t.wf(),
            t.as_map() == Map::<Date, i64>::empty(),
            t.rows@ == Seq::<ProfitDay>::empty(),
    {
        ProfitTable { rows: Vec::new() }
    }

    /// Insert-or-ignore one record: a day already present keeps its stored
    /// value, a new day is appended.
    pub fn insert_or_ignore(&mut self, r: ProfitDay)
        requires
            old(self).wf(),
        ensures
            final(self).wf(),
            final(self).as_map() == upsert_ignore(old(self).as_map(), r),
            final(self).rows@ == if old(self).as_map().contains_key(r.date) {
                old(self).rows@
            } else {
                old(self).rows@.push(r)
            },
    {
        let n = self.rows.len();
        let mut i: usize = 0;
        while i < n
            invariant
                i <= n == self.rows@.len(),
                self.wf(),
                *self == *old(self),
                forall|k: int| 0 <= k < i ==> self.rows@[k].date != r.date,
            decreases n - i,
        {
            if self.rows[i].date == r.date {
                proof {
                    lemma_map_of_days_contains(self.rows@, r.date);
                }
                return;
            }
            i = i + 1;
        }
        proof {
            lemma_map_of_days_contains(self.rows@, r.date);
            assert(self.rows@.push(r).drop_last() =~= self.rows@);
        }
        self.rows.push(r);
    }
}

/// The whole store: the config table and the two daily-value tables.
#[derive(Debug)]
pub struct Database {
    pub configs: ConfigTable,
    pub net_profits: ProfitTable,
    pub revenues: ProfitTable,
}

impl Database {
    pub open spec fn wf(self) -> bool {
        self.configs.wf() && self.net_profits.wf() && self.revenues.wf()
    }

    pub fn new() -> (db: Database)
        ensures
            db.wf(),
            db.configs.as_map() == Map::<Seq<char>, Seq<char>>::empty(),
            db.net_profits.rows@ == Seq::<ProfitDay>::empty(),
            db.revenues.rows@ == Seq::<ProfitDay>::empty(),
    {
        Database { configs: ConfigTable::new(), net_profits: ProfitTable::new(), revenues: ProfitTable::new() }
    }
}

} // verus!
