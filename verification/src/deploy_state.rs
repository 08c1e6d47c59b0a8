//! What is already deployed, for each environment, unit and task.
//!
//! A deploy is never served from a cache; but where its inputs are those of the last deploy that
//! succeeded, it need not run again.
use vstd::prelude::*;

use crate::path::{join_path, path_joined};
use crate::strmap::StrMap;
use crate::text::{cat3, copy, copy_opt, pad_zeros, zero_padded};

verus! {

/// The environment of deploys that name none.
pub const DEFAULT_ENV_KEY: &'static str = "<default>";

/// A deploy that succeeded.
#[derive(Debug, PartialEq, Eq)]
pub struct DeployRecord {
    /// The task's key at the time.
    pub input_hash: String,
    /// The time, as RFC 3339 has it.
    pub deployed_at: String,
    /// What the integration printed: a URL, a deploy's id.
    pub deploy_url: Option<String>,
}

#[verifier::ext_equal]
pub struct DeployRecordModel {
    pub input_hash: Seq<char>,
    pub deployed_at: Seq<char>,
    pub deploy_url: Option<Seq<char>>,
}

impl DeepView for DeployRecord {
    type V = DeployRecordModel;

    open spec fn deep_view(&self) -> DeployRecordModel {
        DeployRecordModel {
            input_hash: self.input_hash@,
            deployed_at: self.deployed_at@,
            deploy_url: self.deploy_url.deep_view(),
        }
    }
}

impl DeployRecord {
    /// A copy of the record.
    pub fn copied(&self) -> (r: DeployRecord)
        ensures
            r.deep_view() == self.deep_view(),
    {
        DeployRecord {
            input_hash: copy(self.input_hash.as_str()),
            deployed_at: copy(self.deployed_at.as_str()),
            deploy_url: copy_opt(&self.deploy_url),
        }
    }
}

/// The deploys that succeeded: by environment, then by unit and task.
pub struct DeployState {
    pub envs: StrMap<StrMap<DeployRecord>>,
}

/// The model of the deploys.
pub type DeployStateModel = Map<Seq<char>, Map<Seq<char>, DeployRecordModel>>;

impl View for DeployState {
    type V = DeployStateModel;

    open spec fn view(&self) -> DeployStateModel {
        self.envs@
    }
}

/// The name under which an environment is kept.
pub open spec fn env_key(env: Option<Seq<char>>) -> Seq<char> {
    match env {
        Some(e) => e,
        None => DEFAULT_ENV_KEY@,
    }
}

/// The name under which a unit's task is kept.
pub open spec fn task_key(unit: Seq<char>, task: Seq<char>) -> Seq<char> {
    unit + ":"@ + task
}

/// The record of a task in an environment.
pub open spec fn record_of(s: DeployStateModel, env: Option<Seq<char>>, unit: Seq<char>, task: Seq<char>) -> Option<
    DeployRecordModel,
> {
    if s.contains_key(env_key(env)) && s[env_key(env)].contains_key(task_key(unit, task)) {
        Some(s[env_key(env)][task_key(unit, task)])
    } else {
        None
    }
}

/// The deploys with one more record, in place of the one it follows.
pub open spec fn with_record(
    s: DeployStateModel,
    env: Option<Seq<char>>,
    unit: Seq<char>,
    task: Seq<char>,
    record: DeployRecordModel,
) -> DeployStateModel {
    let bucket = if s.contains_key(env_key(env)) {
        s[env_key(env)]
    } else {
        Map::empty()
    };
    s.insert(env_key(env), bucket.insert(task_key(unit, task), record))
}

impl Default for DeployState {
    fn default() -> (r: Self)
        ensures
            r@ == Map::<Seq<char>, Map<Seq<char>, DeployRecordModel>>::empty(),
    {
        DeployState { envs: StrMap::new() }
    }
}

fn env_name<'a>(env: Option<&'a str>) -> (r: &'a str)
    ensures
        r@ == env_key(env.deep_view()),
{
    match env {
        Some(e) => e,
        None => DEFAULT_ENV_KEY,
    }
}

impl DeployState {
    /// The file in which a workspace keeps its deploys.
    pub fn path_for(workspace_root: &str) -> (r: String)
        ensures
            r@ == path_joined(
                path_joined(path_joined(workspace_root@, ".monad"@), "state"@),
                "deploys.json"@,
            ),
    {
        let dir = join_path(workspace_root, ".monad");
        let dir = join_path(dir.as_str(), "state");
        join_path(dir.as_str(), "deploys.json")
    }

    /// The name under which a unit's task is kept.
    pub fn entry_key(unit: &str, task: &str) -> (r: String)
        ensures
            r@ == task_key(unit@, task@),
    {
        cat3(unit, ":", task)
    }

    /// The record of a task in an environment.
    pub fn get(&self, env: Option<&str>, unit: &str, task: &str) -> (r: Option<&DeployRecord>)
        ensures
            r.deep_view() == record_of(self@, env.deep_view(), unit@, task@),
    {
        match self.envs.get(env_name(env)) {
            Some(bucket) => {
                let key = Self::entry_key(unit, task);
                bucket.get(key.as_str())
            },
            None => None,
        }
    }

    /// Keeps a record, in place of the one that it follows.
    pub fn set(&mut self, env: Option<&str>, unit: &str, task: &str, record: DeployRecord)
        ensures
            final(self)@ == with_record(old(self)@, env.deep_view(), unit@, task@, record.deep_view()),
    {
        let name = env_name(env);
        let mut bucket = match self.envs.remove(name) {
            Some(b) => b,
            None => StrMap::new(),
        };
        bucket.insert(Self::entry_key(unit, task), record);
        self.envs.insert(copy(name), bucket);
        assert(self@ =~= with_record(old(self)@, env.deep_view(), unit@, task@, record.deep_view()));
    }

    /// The record of a task whose inputs have not changed since: the one kept, where its key is the
    /// present one.
    pub fn unchanged(&self, env: Option<&str>, unit: &str, task: &str, key: &str) -> (r: Option<DeployRecord>)
        ensures
            r.deep_view() == unchanged_of(self@, env.deep_view(), unit@, task@, key@),
    {
        match self.get(env, unit, task) {
            Some(record) => if crate::text::same(record.input_hash.as_str(), key) {
                Some(record.copied())
            } else {
                None
            },
            None => None,
        }
    }
}

/// The record of a task whose inputs have not changed since.
pub open spec fn unchanged_of(
    s: DeployStateModel,
    env: Option<Seq<char>>,
    unit: Seq<char>,
    task: Seq<char>,
    key: Seq<char>,
) -> Option<DeployRecordModel> {
    match record_of(s, env, unit, task) {
        Some(record) if record.input_hash == key => Some(record),
        _ => None,
    }
}

/// What was kept last is what is found; records of other environments, and of other tasks, stay as
/// they were.
pub proof fn law_set_then_get(
    s: DeployStateModel,
    env: Option<Seq<char>>,
    unit: Seq<char>,
    task: Seq<char>,
    record: DeployRecordModel,
    other_env: Option<Seq<char>>,
    other_unit: Seq<char>,
    other_task: Seq<char>,
)
    ensures
        record_of(with_record(s, env, unit, task, record), env, unit, task) == Some(record),
        env_key(other_env) != env_key(env) || task_key(other_unit, other_task) != task_key(unit, task)
            ==> record_of(with_record(s, env, unit, task, record), other_env, other_unit, other_task)
            == record_of(s, other_env, other_unit, other_task),
{
}

/// Different tasks of units whose names hold no colon are kept under different names.
pub proof fn law_task_keys_distinct(u: Seq<char>, t: Seq<char>, v: Seq<char>, w: Seq<char>)
    requires
        !u.contains(':'),
        !v.contains(':'),
        task_key(u, t) == task_key(v, w),
    ensures
        u == v,
        t == w,
{
    reveal_strlit(":");
    let a = task_key(u, t);
    let b = task_key(v, w);
    assert(":"@ =~= seq![':']);
    assert(a[u.len() as int] == ':');
    assert(b[v.len() as int] == ':');
    if u.len() < v.len() {
        assert(b[u.len() as int] == v[u.len() as int]);
    }
    if v.len() < u.len() {
        assert(a[v.len() as int] == u[v.len() as int]);
    }
    assert(a.take(u.len() as int) =~= u);
    assert(b.take(v.len() as int) =~= v);
    assert(a.skip(u.len() as int + 1) =~= t);
    assert(b.skip(v.len() as int + 1) =~= w);
}

/// Whether a year of the Gregorian calendar has 366 days.
pub open spec fn leap(y: int) -> bool {
    y % 4 == 0 && (y % 100 != 0 || y % 400 == 0)
}

/// How many days the months before a month have.
pub open spec fn days_before_month(y: int, m: int) -> int {
    let feb: int = if leap(y) {
        29
    } else {
        28
    };
    if m == 1 {
        0
    } else if m == 2 {
        31
    } else if m == 3 {
        31 + feb
    } else if m == 4 {
        62 + feb
    } else if m == 5 {
        92 + feb
    } else if m == 6 {
        123 + feb
    } else if m == 7 {
        153 + feb
    } else if m == 8 {
        184 + feb
    } else if m == 9 {
        215 + feb
    } else if m == 10 {
        245 + feb
    } else if m == 11 {
        276 + feb
    } else if m == 12 {
        306 + feb
    } else {
        337 + feb
    }
}

/// How many days a month has.
pub open spec fn days_in_month(y: int, m: int) -> int {
    days_before_month(y, m + 1) - days_before_month(y, m)
}

/// How many days lie between the first day of the year 1 and that of a year.
pub open spec fn days_before_year(y: int) -> int {
    365 * (y - 1) + (y - 1) / 4 - (y - 1) / 100 + (y - 1) / 400
}

/// Whether a year, a month and a day make a date.
pub open spec fn is_date(y: int, m: int, d: int) -> bool {
    1 <= m <= 12 && 1 <= d <= days_in_month(y, m)
}

/// How many days lie between the first day of 1970 and a date.
pub open spec fn day_number(y: int, m: int, d: int) -> int {
    days_before_year(y) + days_before_month(y, m) + d - 1 - days_before_year(1970)
}

/// How many days lie between the first of March and the first day of a month.
spec fn days_since_march(m: int) -> int {
    if m == 3 {
        0
    } else if m == 4 {
        31
    } else if m == 5 {
        61
    } else if m == 6 {
        92
    } else if m == 7 {
        122
    } else if m == 8 {
        153
    } else if m == 9 {
        184
    } else if m == 10 {
        214
    } else if m == 11 {
        245
    } else if m == 12 {
        275
    } else if m == 1 {
        306
    } else {
        337
    }
}

/// The month and the day of it that lie `doy` days behind the first of March.
fn month_and_day(doy: i64) -> (r: (u32, u32))
    requires
        0 <= doy <= 365,
    ensures
        1 <= r.0 <= 12,
        r.1 >= 1,
        days_since_march(r.0 as int) + r.1 - 1 == doy,
        r.0 == 2 ==> r.1 <= 29,
        r.0 != 2 ==> r.1 <= days_in_month(0, r.0 as int),
        r.0 == 2 && r.1 == 29 <==> doy == 365,
{
    if doy < 31 {
        (3, (doy + 1) as u32)
    } else if doy < 61 {
        (4, (doy - 30) as u32)
    } else if doy < 92 {
        (5, (doy - 60) as u32)
    } else if doy < 122 {
        (6, (doy - 91) as u32)
    } else if doy < 153 {
        (7, (doy - 121) as u32)
    } else if doy < 184 {
        (8, (doy - 152) as u32)
    } else if doy < 214 {
        (9, (doy - 183) as u32)
    } else if doy < 245 {
        (10, (doy - 213) as u32)
    } else if doy < 275 {
        (11, (doy - 244) as u32)
    } else if doy < 306 {
        (12, (doy - 274) as u32)
    } else if doy < 337 {
        (1, (doy - 305) as u32)
    } else {
        (2, (doy - 336) as u32)
    }
}

/// How many days the years before a year have, where years are counted from March.
spec fn march_days(y: int) -> int {
    365 * y + y / 4 - y / 100 + y / 400
}

proof fn lemma_march_days(e: int, c: int, q: int, r: int)
    requires
        0 <= c <= 3,
        0 <= q <= 24,
        0 <= r <= 3,
    ensures
        march_days(400 * e + 100 * c + 4 * q + r) == 146097 * e + 36524 * c + 1461 * q + 365 * r,
{
    let y = 400 * e + 100 * c + 4 * q + r;
    assert(y / 4 == 100 * e + 25 * c + q);
    assert(y / 100 == 4 * e + c);
    assert(y / 400 == e);
}

proof fn lemma_leap_ends_quad(e: int, c: int, q: int)
    requires
        0 <= c <= 3,
        0 <= q <= 24,
        q == 24 ==> c == 3,
    ensures
        leap(400 * e + 100 * c + 4 * q + 4),
{
    let y = 400 * e + 100 * c + 4 * q + 4;
    assert(y == 4 * (100 * e + 25 * c + q + 1));
    if q == 24 {
        assert(y == 400 * (e + 1));
    } else {
        assert(y % 100 == 4 * q + 4);
    }
}

proof fn lemma_march_date(y: int, m: int, d: int)
    requires
        1 <= m <= 12,
    ensures
        m > 2 ==> day_number(y, m, d) == march_days(y) + days_since_march(m) + d - 1 - 719468,
        m <= 2 ==> day_number(y + 1, m, d) == march_days(y) + days_since_march(m) + d - 1 - 719468,
{
    assert(days_before_year(1970) == 719162);
    assert(days_before_year(y + 1) == march_days(y));
    if m > 2 {
        lemma_year_length(y);
    }
}

/// The date of the day that lies `z` days behind the first day of 1970.
pub fn civil_from_days(z: i64) -> (r: (i64, u32, u32))
    requires
        z <= i64::MAX - 719468,
    ensures
        is_date(r.0 as int, r.1 as int, r.2 as int),
        day_number(r.0 as int, r.1 as int, r.2 as int) == z,
{
    // Years are counted from March, so that a leap day ends a year.
    let n: i64 = z + 719468;
    let era: i64 = if n >= 0 {
        n / 146097
    } else {
        -((-(n + 1)) / 146097) - 1
    };
    let doe: i64 = n - era * 146097;
    assert(0 <= doe < 146097);
    let cent: i64 = if doe / 36524 < 4 {
        doe / 36524
    } else {
        3
    };
    let doc: i64 = doe - cent * 36524;
    assert(0 <= doc <= 36524);
    let quad: i64 = doc / 1461;
    let doq: i64 = doc - quad * 1461;
    let yoq: i64 = if doq / 365 < 4 {
        doq / 365
    } else {
        3
    };
    let doy: i64 = doq - yoq * 365;
    let y: i64 = era * 400 + cent * 100 + quad * 4 + yoq;
    let (m, d) = month_and_day(doy);
    proof {
        lemma_march_days(era as int, cent as int, quad as int, yoq as int);
        lemma_march_date(y as int, m as int, d as int);
        if doy == 365 {
            lemma_leap_ends_quad(era as int, cent as int, quad as int);
        }
    }
    if m <= 2 {
        (y + 1, m, d)
    } else {
        (y, m, d)
    }
}

proof fn lemma_step(y: int, n: int)
    requires
        n > 0,
    ensures
        y / n - (y - 1) / n == (if y % n == 0 {
            1int
        } else {
            0
        }),
{
    let q = y / n;
    let r = y % n;
    vstd::arithmetic::div_mod::lemma_fundamental_div_mod(y, n);
    if r == 0 {
        assert(y - 1 == n * (q - 1) + (n - 1)) by (nonlinear_arith)
            requires
                y == n * q + r,
                r == 0,
        ;
        vstd::arithmetic::div_mod::lemma_fundamental_div_mod_converse(y - 1, n, q - 1, n - 1);
    } else {
        vstd::arithmetic::div_mod::lemma_fundamental_div_mod_converse(y - 1, n, q, r - 1);
    }
}

proof fn lemma_multiples(y: int)
    ensures
        y % 400 == 0 ==> y % 100 == 0,
        y % 100 == 0 ==> y % 4 == 0,
{
}

#[verifier::spinoff_prover]
#[verifier::rlimit(40)]
proof fn lemma_year_length(y: int)
    ensures
        days_before_year(y + 1) - days_before_year(y) == (if leap(y) {
            366int
        } else {
            365
        }),
{
    lemma_step(y, 4);
    lemma_step(y, 100);
    lemma_step(y, 400);
    lemma_multiples(y);
}

/// A second of the calendar as RFC 3339 has it, in UTC.
pub open spec fn stamp(y: int, mo: int, d: int, sod: int) -> Seq<char> {
    zero_padded(y as nat, 4) + "-"@ + zero_padded(mo as nat, 2) + "-"@ + zero_padded(d as nat, 2) + "T"@
        + zero_padded((sod / 3600) as nat, 2) + ":"@ + zero_padded(((sod % 3600) / 60) as nat, 2) + ":"@
        + zero_padded((sod % 60) as nat, 2) + "Z"@
}

/// Whether a text is the second that lies `secs` seconds behind the start of 1970.
pub open spec fn is_stamp_of(secs: u64, s: Seq<char>) -> bool {
    exists|y: int, mo: int, d: int|
        is_date(y, mo, d) && day_number(y, mo, d) == secs as int / 86400 && s == #[trigger] stamp(
            y,
            mo,
            d,
            secs as int % 86400,
        )
}

/// The second that lies `now` seconds behind the start of 1970, as RFC 3339 has it, in UTC.
pub fn rfc3339(now: u64) -> (r: String)
    ensures
        is_stamp_of(now, r@),
{
    let days: u64 = now / 86400;
    let sod: u64 = now % 86400;
    let (y, mo, d) = civil_from_days(days as i64);
    proof {
        lemma_after_epoch(y as int, mo as int, d as int);
    }
    let mut r = pad_zeros(y as u64, 4);
    r.append("-");
    r.append(pad_zeros(mo as u64, 2).as_str());
    r.append("-");
    r.append(pad_zeros(d as u64, 2).as_str());
    r.append("T");
    r.append(pad_zeros(sod / 3600, 2).as_str());
    r.append(":");
    r.append(pad_zeros((sod % 3600) / 60, 2).as_str());
    r.append(":");
    r.append(pad_zeros(sod % 60, 2).as_str());
    r.append("Z");
    assert(r@ =~= stamp(y as int, mo as int, d as int, now as int % 86400));
    r
}

proof fn lemma_after_epoch(y: int, m: int, d: int)
    requires
        is_date(y, m, d),
        day_number(y, m, d) >= 0,
    ensures
        y >= 1970,
{
    if y < 1970 {
        assert(days_before_month(y, m) + d <= 366);
        assert(days_before_year(1970) == 719162);
        if y < 1969 {
            assert((y - 1) / 4 - (y - 1) / 100 + (y - 1) / 400 <= 477);
        } else {
            assert(days_before_month(1969, m) + d <= 365);
        }
    }
}

/// `SystemTime::now`, in whole seconds behind the start of 1970; 0 where the clock is set before it.
#[verifier::external_body]
fn unix_seconds() -> u64 {
    std::time::SystemTime::now().duration_since(std::time::UNIX_EPOCH).unwrap_or_default().as_secs()
}

/// The present second as RFC 3339 has it, in UTC.
pub fn now_rfc3339() -> (r: String)
    ensures
        exists|now: u64| is_stamp_of(now, r@),
{
    rfc3339(unix_seconds())
}

/// Each day has one date: two dates of the same day are the same.
pub proof fn law_dates_distinct(y: int, m: int, d: int, y2: int, m2: int, d2: int)
    requires
        is_date(y, m, d),
        is_date(y2, m2, d2),
        day_number(y, m, d) == day_number(y2, m2, d2),
    ensures
        y == y2,
        m == m2,
        d == d2,
{
    if y < y2 {
        lemma_years_apart(y, m, d, y2, m2, d2);
    } else if y2 < y {
        lemma_years_apart(y2, m2, d2, y, m, d);
    } else if m < m2 {
        lemma_months_apart(y, m, m2);
    } else if m2 < m {
        lemma_months_apart(y, m2, m);
    }
}

proof fn lemma_months_apart(y: int, m: int, m2: int)
    requires
        1 <= m < m2 <= 12,
    ensures
        days_before_month(y, m) + days_in_month(y, m) <= days_before_month(y, m2),
    decreases m2 - m,
{
    if m + 1 < m2 {
        lemma_months_apart(y, m, m2 - 1);
        assert(days_before_month(y, m2 - 1) <= days_before_month(y, m2));
    }
}

proof fn lemma_years_apart(y: int, m: int, d: int, y2: int, m2: int, d2: int)
    requires
        is_date(y, m, d),
        is_date(y2, m2, d2),
        y < y2,
    ensures
        day_number(y, m, d) < day_number(y2, m2, d2),
    decreases y2 - y,
{
    lemma_year_length(y);
    assert(days_before_month(y, m) + d <= (if leap(y) {
        366int
    } else {
        365
    }));
    if y + 1 < y2 {
        lemma_years_apart(y, m, d, y + 1, 1, 1);
        lemma_years_apart(y + 1, 1, 1, y2, m2, d2);
    }
}

/// Deploys without an environment are kept apart from those of every environment of another name.
pub proof fn law_environments_are_kept_apart(a: Option<Seq<char>>, b: Option<Seq<char>>)
    ensures
        a matches Some(x) ==> (b matches Some(y) ==> (x != y ==> env_key(a) != env_key(b))),
        a is None ==> (b matches Some(y) ==> (y != DEFAULT_ENV_KEY@ ==> env_key(a) != env_key(b))),
{
}

/// A deploy counts as unchanged if and only if the record that is kept of its task in the environment has
/// the same key.
pub proof fn law_unchanged_means_same_key(
    s: DeployStateModel,
    env: Option<Seq<char>>,
    unit: Seq<char>,
    task: Seq<char>,
    key: Seq<char>,
)
    ensures
        unchanged_of(s, env, unit, task, key) is Some <==> (record_of(s, env, unit, task) matches Some(r)
            && r.input_hash == key),
        unchanged_of(s, env, unit, task, key) is Some ==> unchanged_of(s, env, unit, task, key) == record_of(
            s,
            env,
            unit,
            task,
        ),
{
}

/// The day behind a date has the next number: it is the next of the month, or the first of the next month, or
/// the first of the next year. The first day of 1970 has the number 0.
pub proof fn law_days_follow_each_other(y: int, m: int, d: int)
    requires
        is_date(y, m, d),
    ensures
        d < days_in_month(y, m) ==> is_date(y, m, d + 1) && day_number(y, m, d + 1) == day_number(y, m, d) + 1,
        d == days_in_month(y, m) && m < 12 ==> is_date(y, m + 1, 1) && day_number(y, m + 1, 1) == day_number(y, m, d) + 1,
        d == days_in_month(y, m) && m == 12 ==> is_date(y + 1, 1, 1) && day_number(y + 1, 1, 1) == day_number(y, m, d)
            + 1,
        day_number(1970, 1, 1) == 0,
{
    lemma_year_length(y);
    lemma_year_length(y + 1);
}

/// Every month has the days that it has: February 29 in leap years and else 28, April, June, September and
/// November 30, the others 31.
pub proof fn law_lengths_of_months(y: int)
    ensures
        days_in_month(y, 2) == if y % 4 == 0 && (y % 100 != 0 || y % 400 == 0) {
            29int
        } else {
            28int
        },
        forall|m: int| m == 4 || m == 6 || m == 9 || m == 11 ==> #[trigger] days_in_month(y, m) == 30,
        forall|m: int|
            m == 1 || m == 3 || m == 5 || m == 7 || m == 8 || m == 10 || m == 12 ==> #[trigger] days_in_month(y, m) == 31,
        forall|d: int| 1 <= d <= 31 ==> #[trigger] is_date(y, 12, d) && is_date(y, 1, d),
{
}

} // verus!
