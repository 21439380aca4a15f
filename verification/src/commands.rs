use vstd::prelude::*;
use crate::NormalizeError;
use crate::dto::{ParsedProfit, PersonalResponse, ProfitDay};
use crate::format::{amount_chars, format_amount};
use crate::normalize::{response_error, response_net, response_rev};
use crate::store::{Database, upsert_ignore};

verus! {

/// A config lookup failed: the key is not stored.
#[derive(Clone, Copy, Debug, PartialEq, Eq, Structural)]
pub enum ConfigError {
    NotFound,
}

/// Which required config key the update command found missing.
#[derive(Clone, Copy, Debug, PartialEq, Eq, Structural)]
pub enum MissingKey {
    SessionToken,
    RestApiKey,
}

/// The two credentials the update command sends as headers.
#[derive(Debug)]
pub struct Credentials {
    pub session_token: String,
    pub rest_api_key: String,
}

/// Read one config key: its stored value, or `NotFound` exactly when the
/// key is absent.
pub fn load_config_key(db: &Database, key: &str) -> (r: Result<String, ConfigError>)
    requires
        db.wf(),
    ensures
        match r {
            Ok(v) => db.configs.as_map().contains_key(key@) && v@ == db.configs.as_map()[key@],
            Err(e) => e == ConfigError::NotFound && !db.configs.as_map().contains_key(key@),
        },
{
    match db.configs.get(key) {
        Some(v) => Ok(v.clone()),
        None => Err(ConfigError::NotFound),
    }
}

/// Write one config key: insert it if absent, else update the stored value
/// in place.
pub fn save_config_key(db: &mut Database, key: String, value: String)
    requires
        old(db).wf(),
    ensures
        final(db).wf(),
        final(db).configs.as_map() == old(db).configs.as_map().insert(key@, value@),
        final(db).net_profits == old(db).net_profits,
        final(db).revenues == old(db).revenues,
{
    db.configs.set(key, value);
}

/// The config subcommand: each provided flag writes its key independently;
/// an absent flag leaves its key alone.
pub fn configure(db: &mut Database, rest_api_key: Option<String>, session_token: Option<String>)
    requires
        old(db).wf(),
    ensures
        final(db).wf(),
        final(db).configs.as_map() == {
            let after_api = match rest_api_key {
                Some(v) => old(db).configs.as_map().insert("api-key"@, v@),
                None => old(db).configs.as_map(),
            };
            match session_token {
                Some(v) => after_api.insert("session-token"@, v@),
                None => after_api,
            }
        },
        final(db).net_profits == old(db).net_profits,
        final(db).revenues == old(db).revenues,
{
    match rest_api_key {
        Some(v) => {
            save_config_key(db, String::from_str("api-key"), v);
        },
        None => {},
    }
    match session_token {
        Some(v) => {
            save_config_key(db, String::from_str("session-token"), v);
        },
        None => {},
    }
}

/// What the update command needs before it may touch the network: both
/// config keys present. Fails on the missing one — the session token is
/// checked first — and succeeds exactly when both are stored.
pub fn credentials_for_update(db: &Database) -> (r: Result<Credentials, MissingKey>)
    requires
        db.wf(),
    ensures
        match r {
            Ok(c) => db.configs.as_map().contains_key("session-token"@)
                && db.configs.as_map().contains_key("api-key"@)
                && c.session_token@ == db.configs.as_map()["session-token"@]
                && c.rest_api_key@ == db.configs.as_map()["api-key"@],
            Err(MissingKey::SessionToken) => !db.configs.as_map().contains_key("session-token"@),
            Err(MissingKey::RestApiKey) => db.configs.as_map().contains_key("session-token"@)
                && !db.configs.as_map().contains_key("api-key"@),
        },
{
    let session_token = match load_config_key(db, "session-token") {
        Ok(v) => v,
        Err(_) => {
            return Err(MissingKey::SessionToken);
        },
    };
    let rest_api_key = match load_config_key(db, "api-key") {
        Ok(v) => v,
        Err(_) => {
            return Err(MissingKey::RestApiKey);
        },
    };
    Ok(Credentials { session_token, rest_api_key })
}

/// Fold a list of records into a table map, in order, each by
/// insert-or-ignore.
pub open spec fn insert_all(m: Map<crate::date::Date, i64>, rs: Seq<ProfitDay>) -> Map<
    crate::date::Date,
    i64,
>
    decreases rs.len(),
{
    if rs.len() == 0 {
        m
    } else {
        insert_all(upsert_ignore(m, rs[0]), rs.drop_first())
    }
}

/// Store the normalized records: every revenue record, then every
/// net-profit record, each inserted-or-ignored in list order. Days already
/// stored keep their values; the config table is untouched.
pub fn insert_values(db: &mut Database, profit: &ParsedProfit)
    requires
        old(db).wf(),
    ensures
        final(db).wf(),
        final(db).revenues.as_map() == insert_all(old(db).revenues.as_map(), profit.revenue@),
        final(db).net_profits.as_map() == insert_all(
            old(db).net_profits.as_map(),
            profit.net_profit@,
        ),
        final(db).configs == old(db).configs,
{
    let ghost rev0 = db.revenues.as_map();
    let mut i: usize = 0;
    proof {
        assert(profit.revenue@.skip(0) =~= profit.revenue@);
    }
    while i < profit.revenue.len()
        invariant
            i <= profit.revenue@.len(),
            db.wf(),
            insert_all(rev0, profit.revenue@) == insert_all(
                db.revenues.as_map(),
                profit.revenue@.skip(i as int),
            ),
            db.configs == old(db).configs,
            db.net_profits == old(db).net_profits,
            rev0 == old(db).revenues.as_map(),
        decreases profit.revenue@.len() - i,
    {
        let ghost suffix = profit.revenue@.skip(i as int);
        proof {
            assert(suffix[0] == profit.revenue@[i as int]);
            assert(suffix.drop_first() =~= profit.revenue@.skip(i + 1));
        }
        db.revenues.insert_or_ignore(profit.revenue[i]);
        i = i + 1;
    }
    proof {
        assert(profit.revenue@.skip(profit.revenue@.len() as int) =~= Seq::<ProfitDay>::empty());
    }
    let ghost net0 = db.net_profits.as_map();
    let mut i: usize = 0;
    proof {
        assert(profit.net_profit@.skip(0) =~= profit.net_profit@);
    }
    while i < profit.net_profit.len()
        invariant
            i <= profit.net_profit@.len(),
            db.wf(),
            insert_all(net0, profit.net_profit@) == insert_all(
                db.net_profits.as_map(),
                profit.net_profit@.skip(i as int),
            ),
            db.configs == old(db).configs,
            db.revenues.as_map() == insert_all(old(db).revenues.as_map(), profit.revenue@),
            net0 == old(db).net_profits.as_map(),
        decreases profit.net_profit@.len() - i,
    {
        let ghost suffix = profit.net_profit@.skip(i as int);
        proof {
            assert(suffix[0] == profit.net_profit@[i as int]);
            assert(suffix.drop_first() =~= profit.net_profit@.skip(i + 1));
        }
        db.net_profits.insert_or_ignore(profit.net_profit[i]);
        i = i + 1;
    }
    proof {
        assert(profit.net_profit@.skip(profit.net_profit@.len() as int) =~= Seq::<
            ProfitDay,
        >::empty());
    }
}

/// The update command's work after the fetch: normalize the response and
/// store every record. On a malformed response the error is returned and
/// the store is left exactly as it was — nothing is partially inserted.
pub fn apply_response(db: &mut Database, resp: &PersonalResponse) -> (r: Result<
    (),
    NormalizeError,
>)
    requires
        old(db).wf(),
    ensures
        final(db).wf(),
        match r {
            Ok(_) => {
                &&& response_error(resp.result@) is None
                &&& final(db).revenues.as_map() == insert_all(
                    old(db).revenues.as_map(),
                    response_rev(resp.result@),
                )
                &&& final(db).net_profits.as_map() == insert_all(
                    old(db).net_profits.as_map(),
                    response_net(resp.result@),
                )
                &&& final(db).configs == old(db).configs
            },
            Err(e) => response_error(resp.result@) == Some(e) && *final(db) == *old(db),
        },
{
    match ParsedProfit::parse(resp) {
        Ok(profit) => {
            insert_values(db, &profit);
            Ok(())
        },
        Err(e) => Err(e),
    }
}

/// Sum of the values of a table's rows.
pub open spec fn sum_of(rows: Seq<ProfitDay>) -> int
    decreases rows.len(),
{
    if rows.len() == 0 {
        0
    } else {
        sum_of(rows.drop_last()) + rows.last().value
    }
}

/// The revenue summary: the sum of every stored revenue value, in cents,
/// or nothing at all — not zero — when no revenue is stored.
pub fn summary(db: &Database) -> (r: Option<i128>)
    ensures
        match r {
            Some(total) => db.revenues.rows@.len() > 0 && total == sum_of(db.revenues.rows@),
            None => db.revenues.rows@.len() == 0,
        },
{
    if db.revenues.rows.len() == 0 {
        return None;
    }
    let n = db.revenues.rows.len();
    let mut total: i128 = 0;
    let mut i: usize = 0;
    proof {
        assert(db.revenues.rows@.take(0) =~= Seq::<ProfitDay>::empty());
    }
    while i < n
        invariant
            i <= n == db.revenues.rows@.len(),
            total == sum_of(db.revenues.rows@.take(i as int)),
            -(i as int) * 0x8000_0000_0000_0000 <= total <= (i as int) * 0x8000_0000_0000_0000,
        decreases n - i,
    {
        let v = db.revenues.rows[i].value;
        proof {
            assert(db.revenues.rows@.take(i + 1).drop_last() =~= db.revenues.rows@.take(i as int));
            assert(db.revenues.rows@.take(i + 1).last() == db.revenues.rows@[i as int]);
        }
        total = total + v as i128;
        i = i + 1;
    }
    proof {
        assert(db.revenues.rows@.take(n as int) =~= db.revenues.rows@);
    }
    Some(total)
}

/// The line the summary command prints, or nothing when no revenue is
/// stored.
pub fn summary_line(db: &Database) -> (r: Option<String>)
    ensures
        match r {
            Some(s) => db.revenues.rows@.len() > 0 && s@ == "Revenue: € "@ + amount_chars(
                sum_of(db.revenues.rows@),
            ),
            None => db.revenues.rows@.len() == 0,
        },
{
    match summary(db) {
        Some(total) => {
            let amount = format_amount(total);
            let mut line = String::from_str("Revenue: € ");
            line.append(amount.as_str());
            Some(line)
        },
        None => None,
    }
}

} // verus!
