//! Configuration read from a snapshot of the process environment: lookups,
//! decimal and boolean values, comma-separated lists, and the option groups
//! built from them.
use vstd::prelude::*;

verus! {

pub open spec fn is_digit(c: char) -> bool {
    48 <= (c as u32) <= 57
}

pub open spec fn all_digits(s: Seq<char>) -> bool {
    forall|i: int| 0 <= i < s.len() ==> is_digit(#[trigger] s[i])
}

/// The number that the decimal digits `s` spell.
pub open spec fn decimal_value(s: Seq<char>) -> nat
    decreases s.len(),
{
    if s.len() == 0 {
        0
    } else {
        decimal_value(s.drop_last()) * 10 + ((s.last() as u32) - 48) as nat
    }
}

/// `s` without one leading `+`, if it has one.
pub open spec fn unsigned_digits(s: Seq<char>) -> Seq<char> {
    if s.len() > 0 && s[0] == '+' {
        s.drop_first()
    } else {
        s
    }
}

/// The `u64` that `s` denotes in decimal (an optional `+`, then at least one
/// digit), or `None` when `s` is malformed or the number does not fit.
pub open spec fn parse_u64_spec(s: Seq<char>) -> Option<u64> {
    let d = unsigned_digits(s);
    if d.len() > 0 && all_digits(d) && decimal_value(d) <= u64::MAX {
        Some(decimal_value(d) as u64)
    } else {
        None
    }
}

/// `true` and `false` spelled out, nothing else.
pub open spec fn parse_bool_spec(s: Seq<char>) -> Option<bool> {
    if s == "true"@ {
        Some(true)
    } else if s == "false"@ {
        Some(false)
    } else {
        None
    }
}

proof fn lemma_decimal_prefix(d: Seq<char>, k: int)
    requires
        all_digits(d),
        0 <= k <= d.len(),
    ensures
        decimal_value(d.subrange(0, k)) <= decimal_value(d),
    decreases d.len(),
{
    if k == d.len() {
        assert(d.subrange(0, k) =~= d);
    } else {
        let p = d.drop_last();
        assert(p.subrange(0, k) =~= d.subrange(0, k));
        lemma_decimal_prefix(p, k);
    }
}

/// Parses a decimal `u64`, as `str::parse::<u64>` accepts it.
pub fn parse_u64(s: &str) -> (r: Option<u64>)
    ensures
        r == parse_u64_spec(s@),
{
    let n = s.unicode_len();
    let mut start: usize = 0;
    if n > 0 && s.get_char(0) == '+' {
        start = 1;
    }
    let ghost d = unsigned_digits(s@);
    proof {
        if start == 1 {
            assert(d =~= s@.subrange(1, n as int));
        } else {
            assert(d =~= s@.subrange(0, n as int));
        }
    }
    if start >= n {
        return None;
    }
    let mut acc: u64 = 0;
    let mut i: usize = start;
    while i < n
        invariant
            start <= i <= n,
            n == s@.len(),
            start <= 1,
            d == s@.subrange(start as int, n as int),
            d == unsigned_digits(s@),
            acc == decimal_value(d.subrange(0, i - start)),
            all_digits(d.subrange(0, i - start)),
        decreases n - i,
    {
        let c = s.get_char(i);
        let cu = c as u32;
        if cu < 48 || cu > 57 {
            proof {
                assert(d[i - start] == s@[i as int]);
                assert(!is_digit(d[i - start]));
            }
            return None;
        }
        let dv = (cu - 48) as u64;
        let ghost pre = d.subrange(0, i - start);
        let ghost next = d.subrange(0, i - start + 1);
        proof {
            assert(next.drop_last() =~= pre);
            assert(next.last() == c);
            assert(decimal_value(next) == decimal_value(pre) * 10 + dv);
        }
        if acc > (u64::MAX - dv) / 10 {
            proof {
                assert(acc * 10 + dv > u64::MAX) by (nonlinear_arith)
                    requires
                        acc > (u64::MAX - dv) / 10,
                        dv <= 9,
                ;
                assert(decimal_value(next) > u64::MAX);
                if all_digits(d) {
                    lemma_decimal_prefix(d, i - start + 1);
                }
            }
            return None;
        }
        proof {
            assert(acc * 10 + dv <= u64::MAX) by (nonlinear_arith)
                requires
                    acc <= (u64::MAX - dv) / 10,
                    dv <= 9,
            ;
            assert(all_digits(next)) by {
                assert forall|j: int| 0 <= j < next.len() implies is_digit(#[trigger] next[j]) by {
                    if j < pre.len() {
                        assert(next[j] == pre[j]);
                    }
                }
            }
        }
        acc = acc * 10 + dv;
        i += 1;
    }
    proof {
        assert(d.subrange(0, i - start) =~= d);
    }
    Some(acc)
}

/// Whether `a` and `b` hold the same characters.
pub fn same_text(a: &str, b: &str) -> (r: bool)
    ensures
        r == (a@ == b@),
{
    let n = a.unicode_len();
    if n != b.unicode_len() {
        return false;
    }
    let mut i: usize = 0;
    while i < n
        invariant
            i <= n,
            n == a@.len(),
            n == b@.len(),
            forall|j: int| 0 <= j < i ==> a@[j] == b@[j],
        decreases n - i,
    {
        if a.get_char(i) != b.get_char(i) {
            return false;
        }
        i += 1;
    }
    proof {
        assert(a@ =~= b@);
    }
    true
}

/// Parses `true` or `false`, as `str::parse::<bool>` accepts them.
pub fn parse_bool(s: &str) -> (r: Option<bool>)
    ensures
        r == parse_bool_spec(s@),
{
    if same_text(s, "true") {
        Some(true)
    } else if same_text(s, "false") {
        Some(false)
    } else {
        None
    }
}

/// `s` cut at every comma, as `str::split(',')` cuts it: `n` commas give
/// `n + 1` pieces, some possibly empty.
pub open spec fn split_commas(s: Seq<char>) -> Seq<Seq<char>>
    decreases s.len(),
{
    if s.len() == 0 {
        seq![Seq::empty()]
    } else {
        let init = split_commas(s.drop_last());
        if s.last() == ',' {
            init.push(Seq::empty())
        } else {
            init.update(init.len() - 1, init.last().push(s.last()))
        }
    }
}

/// The decimal number `p` denotes, if it is at most `max`.
pub open spec fn parse_bounded(p: Seq<char>, max: u64) -> Option<u64> {
    match parse_u64_spec(p) {
        Some(v) => if v <= max {
            Some(v)
        } else {
            None
        },
        None => None,
    }
}

/// Every comma-separated piece of `s` is a number no greater than `max`.
pub open spec fn list_parses(s: Seq<char>, max: u64) -> bool {
    forall|k: int| 0 <= k < split_commas(s).len() ==> (#[trigger] parse_bounded(split_commas(s)[k], max)) is Some
}

proof fn lemma_split_nonempty(s: Seq<char>)
    ensures
        split_commas(s).len() >= 1,
    decreases s.len(),
{
    if s.len() > 0 {
        lemma_split_nonempty(s.drop_last());
    }
}

/// The pieces of a prefix, but for its last, are pieces of the whole.
proof fn lemma_split_prefix(s: Seq<char>, j: int)
    requires
        0 <= j <= s.len(),
    ensures
        split_commas(s.subrange(0, j)).len() <= split_commas(s).len(),
        forall|k: int|
            0 <= k < split_commas(s.subrange(0, j)).len() - 1 ==> #[trigger] split_commas(s)[k]
                == split_commas(s.subrange(0, j))[k],
    decreases s.len(),
{
    lemma_split_nonempty(s);
    if j == s.len() {
        assert(s.subrange(0, j) =~= s);
    } else {
        let p = s.drop_last();
        assert(p.subrange(0, j) =~= s.subrange(0, j));
        lemma_split_prefix(p, j);
        lemma_split_nonempty(p);
    }
}

/// Parses a comma-separated list of decimal numbers, each at most `max`.
pub fn parse_list(s: &str, max: u64) -> (r: Option<Vec<u64>>)
    ensures
        r is Some <==> list_parses(s@, max),
        r matches Some(v) ==> v@.len() == split_commas(s@).len() && forall|k: int|
            0 <= k < v@.len() ==> Some(#[trigger] v@[k]) == parse_bounded(split_commas(s@)[k], max),
{
    let n = s.unicode_len();
    let mut out: Vec<u64> = Vec::new();
    let mut start: usize = 0;
    let mut i: usize = 0;
    let ghost mut done: Seq<Seq<char>> = Seq::empty();
    proof {
        assert(s@.subrange(0, 0) =~= Seq::<char>::empty());
        assert(s@.subrange(0, 0) =~= s@.subrange(0, 0));
        assert(split_commas(s@.subrange(0, 0)) =~= done.push(s@.subrange(0, 0)));
    }
    while i < n
        invariant
            start <= i <= n,
            n == s@.len(),
            split_commas(s@.subrange(0, i as int)) == done.push(s@.subrange(start as int, i as int)),
            out@.len() == done.len(),
            forall|k: int| 0 <= k < done.len() ==> Some(#[trigger] out@[k]) == parse_bounded(done[k], max),
        decreases n - i,
    {
        let c = s.get_char(i);
        let ghost sub = s@.subrange(0, i as int + 1);
        proof {
            assert(sub.drop_last() =~= s@.subrange(0, i as int));
            assert(sub.last() == c);
        }
        if c == ',' {
            let piece = s.substring_char(start, i);
            let parsed = parse_u64(piece);
            let ok = match parsed {
                Some(v) => v <= max,
                None => false,
            };
            proof {
                assert(split_commas(sub) == done.push(piece@).push(Seq::empty()));
                lemma_split_prefix(s@, i as int + 1);
                assert(split_commas(s@)[done.len() as int] == piece@);
            }
            if !ok {
                proof {
                    assert(parse_bounded(split_commas(s@)[done.len() as int], max) is None);
                }
                return None;
            }
            out.push(parsed.unwrap());
            proof {
                done = done.push(piece@);
                assert(s@.subrange(i as int + 1, i as int + 1) =~= Seq::<char>::empty());
                assert(split_commas(sub) =~= done.push(s@.subrange(i as int + 1, i as int + 1)));
            }
            start = i + 1;
        } else {
            proof {
                assert(s@.subrange(start as int, i as int).push(c) =~= s@.subrange(start as int, i as int + 1));
                assert(split_commas(sub) =~= done.push(s@.subrange(start as int, i as int + 1)));
            }
        }
        i += 1;
    }
    let piece = s.substring_char(start, n);
    let parsed = parse_u64(piece);
    proof {
        assert(s@.subrange(0, n as int) =~= s@);
        assert(split_commas(s@) == done.push(piece@));
    }
    match parsed {
        Some(v) => {
            if v <= max {
                out.push(v);
                proof {
                    assert forall|k: int| 0 <= k < split_commas(s@).len() implies (#[trigger] parse_bounded(
                        split_commas(s@)[k],
                        max,
                    )) is Some by {
                        if k < done.len() {
                            assert(Some(out@[k]) == parse_bounded(done[k], max));
                        }
                    }
                    assert forall|k: int| 0 <= k < out@.len() implies Some(#[trigger] out@[k]) == parse_bounded(
                        split_commas(s@)[k],
                        max,
                    ) by {
                        if k < done.len() {
                            assert(split_commas(s@)[k] == done[k]);
                        }
                    }
                }
                Some(out)
            } else {
                proof {
                    assert(parse_bounded(split_commas(s@)[done.len() as int], max) is None);
                }
                None
            }
        },
        None => {
            proof {
                assert(parse_bounded(split_commas(s@)[done.len() as int], max) is None);
            }
            None
        },
    }
}

/// What went wrong with a configuration variable.
#[derive(PartialEq, Eq, Structural, Clone, Copy, Debug)]
pub enum ConfigErrorKind {
    /// The variable is not set.
    Missing,
    /// The value does not parse.
    Invalid,
    /// Two lists that must pair up have different lengths.
    LengthMismatch,
}

#[derive(Clone, Debug)]
pub struct ConfigError {
    pub kind: ConfigErrorKind,
    /// The variable concerned.
    pub name: String,
}

/// A snapshot of environment variables; a later entry for a name shadows an
/// earlier one.
pub struct EnvVars {
    vars: Vec<(String, String)>,
}

/// The value of the last entry of `vars` named `name`.
pub open spec fn env_lookup(vars: Seq<(String, String)>, name: Seq<char>) -> Option<Seq<char>>
    decreases vars.len(),
{
    if vars.len() == 0 {
        None
    } else if vars.last().0@ == name {
        Some(vars.last().1@)
    } else {
        env_lookup(vars.drop_last(), name)
    }
}

/// Outcome of reading `name` as a number.
pub open spec fn u64_outcome(env: &EnvVars, name: Seq<char>) -> Result<u64, ConfigErrorKind> {
    match env_lookup(env.entries(), name) {
        None => Err(ConfigErrorKind::Missing),
        Some(v) => match parse_u64_spec(v) {
            Some(n) => Ok(n),
            None => Err(ConfigErrorKind::Invalid),
        },
    }
}

/// Outcome of reading `name` as a flag.
pub open spec fn bool_outcome(env: &EnvVars, name: Seq<char>) -> Result<bool, ConfigErrorKind> {
    match env_lookup(env.entries(), name) {
        None => Err(ConfigErrorKind::Missing),
        Some(v) => match parse_bool_spec(v) {
            Some(b) => Ok(b),
            None => Err(ConfigErrorKind::Invalid),
        },
    }
}

/// `r` reports `outcome` for the variable `name`.
pub open spec fn reports<T>(r: Result<T, ConfigError>, outcome: Result<T, ConfigErrorKind>, name: Seq<char>) -> bool {
    match outcome {
        Ok(v) => r == Ok::<T, ConfigError>(v),
        Err(k) => r matches Err(e) && e.kind == k && e.name@ == name,
    }
}

fn config_error(kind: ConfigErrorKind, name: &str) -> (r: ConfigError)
    ensures
        r.kind == kind,
        r.name@ == name@,
{
    ConfigError { kind, name: name.to_owned() }
}

impl EnvVars {
    pub closed spec fn entries(&self) -> Seq<(String, String)> {
        self.vars@
    }

    pub fn new() -> (r: Self)
        ensures
            r.entries().len() == 0,
    {
        EnvVars { vars: Vec::new() }
    }

    /// Records `name=value`, shadowing an earlier value of `name`.
    pub fn set(&mut self, name: String, value: String)
        ensures
            final(self).entries() == old(self).entries().push((name, value)),
    {
        self.vars.push((name, value));
    }

    /// The value of `name`.
    pub fn lookup(&self, name: &str) -> (r: Option<&String>)
        ensures
            match env_lookup(self.entries(), name@) {
                Some(v) => r matches Some(x) && x@ == v,
                None => r is None,
            },
    {
        let mut found: Option<usize> = None;
        let mut i: usize = 0;
        while i < self.vars.len()
            invariant
                i <= self.vars@.len(),
                match found {
                    Some(k) => k < i && env_lookup(self.vars@.subrange(0, i as int), name@) == Some(
                        self.vars@[k as int].1@,
                    ),
                    None => env_lookup(self.vars@.subrange(0, i as int), name@) is None,
                },
            decreases self.vars@.len() - i,
        {
            let ghost sub = self.vars@.subrange(0, i as int + 1);
            proof {
                assert(sub.drop_last() =~= self.vars@.subrange(0, i as int));
                assert(sub.last() == self.vars@[i as int]);
            }
            if same_text(self.vars[i].0.as_str(), name) {
                found = Some(i);
            }
            i += 1;
        }
        proof {
            assert(self.vars@.subrange(0, i as int) =~= self.vars@);
        }
        match found {
            Some(k) => Some(&self.vars[k].1),
            None => None,
        }
    }
}

/// The value of the variable `name`.
pub fn get_env(env: &EnvVars, name: &str) -> (r: Result<String, ConfigError>)
    ensures
        match env_lookup(env.entries(), name@) {
            Some(v) => r matches Ok(x) && x@ == v,
            None => r matches Err(e) && e.kind == ConfigErrorKind::Missing && e.name@ == name@,
        },
{
    match env.lookup(name) {
        Some(v) => Ok(v.clone()),
        None => Err(config_error(ConfigErrorKind::Missing, name)),
    }
}

/// The variable `name` read as a decimal number.
pub fn parse_env(env: &EnvVars, name: &str) -> (r: Result<u64, ConfigError>)
    ensures
        reports(r, u64_outcome(env, name@), name@),
{
    match env.lookup(name) {
        None => Err(config_error(ConfigErrorKind::Missing, name)),
        Some(v) => match parse_u64(v.as_str()) {
            Some(n) => Ok(n),
            None => Err(config_error(ConfigErrorKind::Invalid, name)),
        },
    }
}

/// The variable `name` read as `true` or `false`.
pub fn parse_env_flag(env: &EnvVars, name: &str) -> (r: Result<bool, ConfigError>)
    ensures
        reports(r, bool_outcome(env, name@), name@),
{
    match env.lookup(name) {
        None => Err(config_error(ConfigErrorKind::Missing, name)),
        Some(v) => match parse_bool(v.as_str()) {
            Some(b) => Ok(b),
            None => Err(config_error(ConfigErrorKind::Invalid, name)),
        },
    }
}

/// The variable `name` read as a decimal number once its first `skip`
/// characters (a prefix such as `0x` or `+`) are cut off. A value shorter
/// than the prefix is invalid.
pub fn parse_env_with(env: &EnvVars, name: &str, skip: usize) -> (r: Result<u64, ConfigError>)
    ensures
        match env_lookup(env.entries(), name@) {
            None => r matches Err(e) && e.kind == ConfigErrorKind::Missing && e.name@ == name@,
            Some(v) => if v.len() < skip {
                r matches Err(e) && e.kind == ConfigErrorKind::Invalid && e.name@ == name@
            } else {
                match parse_u64_spec(v.subrange(skip as int, v.len() as int)) {
                    Some(n) => r == Ok::<u64, ConfigError>(n),
                    None => r matches Err(e) && e.kind == ConfigErrorKind::Invalid && e.name@ == name@,
                }
            },
        },
{
    match env.lookup(name) {
        None => Err(config_error(ConfigErrorKind::Missing, name)),
        Some(v) => {
            let s = v.as_str();
            let n = s.unicode_len();
            if n < skip {
                return Err(config_error(ConfigErrorKind::Invalid, name));
            }
            match parse_u64(s.substring_char(skip, n)) {
                Some(x) => Ok(x),
                None => Err(config_error(ConfigErrorKind::Invalid, name)),
            }
        },
    }
}

/// `r` reports `outcome`: the same value, or an error of the same kind for the
/// same variable.
pub open spec fn reports_config<T>(r: Result<T, ConfigError>, outcome: Result<T, (ConfigErrorKind, Seq<char>)>) -> bool {
    match outcome {
        Ok(v) => r == Ok::<T, ConfigError>(v),
        Err((k, n)) => r matches Err(e) && e.kind == k && e.name@ == n,
    }
}

/// Outcome of reading `name` as a number that fits in `usize`.
pub open spec fn usize_outcome(env: &EnvVars, name: Seq<char>) -> Result<usize, ConfigErrorKind> {
    match u64_outcome(env, name) {
        Ok(n) => if n <= usize::MAX {
            Ok(n as usize)
        } else {
            Err(ConfigErrorKind::Invalid)
        },
        Err(k) => Err(k),
    }
}

/// The variable `name` read as a decimal number that fits in `usize`.
pub fn parse_env_usize(env: &EnvVars, name: &str) -> (r: Result<usize, ConfigError>)
    ensures
        reports(r, usize_outcome(env, name@), name@),
{
    match parse_env(env, name) {
        Ok(n) => if n <= usize::MAX as u64 {
            Ok(n as usize)
        } else {
            Err(config_error(ConfigErrorKind::Invalid, name))
        },
        Err(e) => Err(e),
    }
}

/// Settings of the sender of transactions to the chain.
#[derive(PartialEq, Eq, Structural, Clone, Copy, Debug)]
pub struct EthSenderOptions {
    pub expected_wait_time_block: u64,
    /// In seconds.
    pub tx_poll_period: u64,
    pub wait_confirmations: u64,
    pub max_txs_in_flight: u64,
    pub is_enabled: bool,
}

pub open spec fn eth_sender_outcome(env: &EnvVars) -> Result<EthSenderOptions, (ConfigErrorKind, Seq<char>)> {
    match u64_outcome(env, "ETH_TX_POLL_PERIOD"@) {
        Err(k) => Err((k, "ETH_TX_POLL_PERIOD"@)),
        Ok(tx_poll_period) => match u64_outcome(env, "ETH_EXPECTED_WAIT_TIME_BLOCK"@) {
            Err(k) => Err((k, "ETH_EXPECTED_WAIT_TIME_BLOCK"@)),
            Ok(expected_wait_time_block) => match u64_outcome(env, "ETH_WAIT_CONFIRMATIONS"@) {
                Err(k) => Err((k, "ETH_WAIT_CONFIRMATIONS"@)),
                Ok(wait_confirmations) => match u64_outcome(env, "ETH_MAX_TXS_IN_FLIGHT"@) {
                    Err(k) => Err((k, "ETH_MAX_TXS_IN_FLIGHT"@)),
                    Ok(max_txs_in_flight) => match bool_outcome(env, "ETH_IS_ENABLED"@) {
                        Err(k) => Err((k, "ETH_IS_ENABLED"@)),
                        Ok(is_enabled) => Ok(
                            EthSenderOptions {
                                expected_wait_time_block,
                                tx_poll_period,
                                wait_confirmations,
                                max_txs_in_flight,
                                is_enabled,
                            },
                        ),
                    },
                },
            },
        },
    }
}

impl EthSenderOptions {
    /// Reads the sender settings; the first variable that is missing or
    /// malformed is reported.
    pub fn from_env(env: &EnvVars) -> (r: Result<Self, ConfigError>)
        ensures
            reports_config(r, eth_sender_outcome(env)),
    {
        let tx_poll_period = match parse_env(env, "ETH_TX_POLL_PERIOD") {
            Ok(v) => v,
            Err(e) => return Err(e),
        };
        let expected_wait_time_block = match parse_env(env, "ETH_EXPECTED_WAIT_TIME_BLOCK") {
            Ok(v) => v,
            Err(e) => return Err(e),
        };
        let wait_confirmations = match parse_env(env, "ETH_WAIT_CONFIRMATIONS") {
            Ok(v) => v,
            Err(e) => return Err(e),
        };
        let max_txs_in_flight = match parse_env(env, "ETH_MAX_TXS_IN_FLIGHT") {
            Ok(v) => v,
            Err(e) => return Err(e),
        };
        let is_enabled = match parse_env_flag(env, "ETH_IS_ENABLED") {
            Ok(v) => v,
            Err(e) => return Err(e),
        };
        Ok(EthSenderOptions { expected_wait_time_block, tx_poll_period, wait_confirmations, max_txs_in_flight, is_enabled })
    }
}

/// Timing settings of a proving worker, all in milliseconds.
#[derive(PartialEq, Eq, Structural, Clone, Copy, Debug)]
pub struct ProverOptions {
    pub prepare_data_interval: u64,
    pub heartbeat_interval: u64,
    pub cycle_wait: u64,
    pub gone_timeout: u64,
}

pub open spec fn prover_outcome(env: &EnvVars) -> Result<ProverOptions, (ConfigErrorKind, Seq<char>)> {
    match u64_outcome(env, "PROVER_PREPARE_DATA_INTERVAL"@) {
        Err(k) => Err((k, "PROVER_PREPARE_DATA_INTERVAL"@)),
        Ok(prepare_data_interval) => match u64_outcome(env, "PROVER_HEARTBEAT_INTERVAL"@) {
            Err(k) => Err((k, "PROVER_HEARTBEAT_INTERVAL"@)),
            Ok(heartbeat_interval) => match u64_outcome(env, "PROVER_CYCLE_WAIT"@) {
                Err(k) => Err((k, "PROVER_CYCLE_WAIT"@)),
                Ok(cycle_wait) => match u64_outcome(env, "PROVER_GONE_TIMEOUT"@) {
                    Err(k) => Err((k, "PROVER_GONE_TIMEOUT"@)),
                    Ok(gone_timeout) => Ok(
                        ProverOptions { prepare_data_interval, heartbeat_interval, cycle_wait, gone_timeout },
                    ),
                },
            },
        },
    }
}

impl ProverOptions {
    /// Reads the worker timings; the first variable that is missing or
    /// malformed is reported.
    pub fn from_env(env: &EnvVars) -> (r: Result<Self, ConfigError>)
        ensures
            reports_config(r, prover_outcome(env)),
    {
        let prepare_data_interval = match parse_env(env, "PROVER_PREPARE_DATA_INTERVAL") {
            Ok(v) => v,
            Err(e) => return Err(e),
        };
        let heartbeat_interval = match parse_env(env, "PROVER_HEARTBEAT_INTERVAL") {
            Ok(v) => v,
            Err(e) => return Err(e),
        };
        let cycle_wait = match parse_env(env, "PROVER_CYCLE_WAIT") {
            Ok(v) => v,
            Err(e) => return Err(e),
        };
        let gone_timeout = match parse_env(env, "PROVER_GONE_TIMEOUT") {
            Ok(v) => v,
            Err(e) => return Err(e),
        };
        Ok(ProverOptions { prepare_data_interval, heartbeat_interval, cycle_wait, gone_timeout })
    }
}

/// How blocks are cut from miniblock iterations.
#[derive(PartialEq, Eq, Structural, Clone, Copy, Debug)]
pub struct MiniblockTimings {
    /// Miniblock iteration interval, in milliseconds.
    pub miniblock_iteration_interval: u64,
    /// Most miniblocks in one block.
    pub max_miniblock_iterations: usize,
    /// Most miniblocks in a block with fast withdrawals (by default the same
    /// as `max_miniblock_iterations`).
    pub fast_miniblock_iterations: usize,
}

pub open spec fn miniblock_outcome(env: &EnvVars) -> Result<MiniblockTimings, (ConfigErrorKind, Seq<char>)> {
    let fast_name = if env_lookup(env.entries(), "FAST_BLOCK_MINIBLOCKS_ITERATIONS"@) is Some {
        "FAST_BLOCK_MINIBLOCKS_ITERATIONS"@
    } else {
        "MINIBLOCKS_ITERATIONS"@
    };
    match usize_outcome(env, fast_name) {
        Err(k) => Err((k, fast_name)),
        Ok(fast_miniblock_iterations) => match u64_outcome(env, "MINIBLOCK_ITERATION_INTERVAL"@) {
            Err(k) => Err((k, "MINIBLOCK_ITERATION_INTERVAL"@)),
            Ok(miniblock_iteration_interval) => match usize_outcome(env, "MINIBLOCKS_ITERATIONS"@) {
                Err(k) => Err((k, "MINIBLOCKS_ITERATIONS"@)),
                Ok(max_miniblock_iterations) => Ok(
                    MiniblockTimings {
                        miniblock_iteration_interval,
                        max_miniblock_iterations,
                        fast_miniblock_iterations,
                    },
                ),
            },
        },
    }
}

impl MiniblockTimings {
    /// Reads the miniblock timings; the fast-block count falls back to the
    /// ordinary count when its own variable is not set.
    pub fn from_env(env: &EnvVars) -> (r: Result<Self, ConfigError>)
        ensures
            reports_config(r, miniblock_outcome(env)),
    {
        let has_fast = env.lookup("FAST_BLOCK_MINIBLOCKS_ITERATIONS").is_some();
        let fast = if has_fast {
            parse_env_usize(env, "FAST_BLOCK_MINIBLOCKS_ITERATIONS")
        } else {
            parse_env_usize(env, "MINIBLOCKS_ITERATIONS")
        };
        let fast_miniblock_iterations = match fast {
            Ok(v) => v,
            Err(e) => return Err(e),
        };
        let miniblock_iteration_interval = match parse_env(env, "MINIBLOCK_ITERATION_INTERVAL") {
            Ok(v) => v,
            Err(e) => return Err(e),
        };
        let max_miniblock_iterations = match parse_env_usize(env, "MINIBLOCKS_ITERATIONS") {
            Ok(v) => v,
            Err(e) => return Err(e),
        };
        Ok(MiniblockTimings { miniblock_iteration_interval, max_miniblock_iterations, fast_miniblock_iterations })
    }
}

/// `r` is an error of kind `k` about the variable `name`.
pub open spec fn fails_with<T>(r: Result<T, ConfigError>, k: ConfigErrorKind, name: Seq<char>) -> bool {
    r matches Err(e) && e.kind == k && e.name@ == name
}

/// `v` holds, one for one, the numbers of the comma-separated list `s`.
pub open spec fn holds_list(v: Seq<int>, s: Seq<char>, max: u64) -> bool {
    &&& v.len() == split_commas(s).len()
    &&& forall|k: int|
        0 <= k < v.len() ==> parse_bounded(split_commas(s)[k], max) == Some(#[trigger] v[k] as u64)
}

/// Supported block sizes (in chunks) and the matching setup powers of two,
/// position by position.
#[derive(Clone, Debug)]
pub struct AvailableBlockSizesConfig {
    pub blocks_chunks: Vec<usize>,
    pub blocks_setup_power2: Vec<u32>,
}

fn to_usize_vec(v: &Vec<u64>) -> (r: Vec<usize>)
    requires
        forall|k: int| 0 <= k < v@.len() ==> #[trigger] v@[k] <= usize::MAX,
    ensures
        r@.len() == v@.len(),
        forall|k: int| 0 <= k < v@.len() ==> #[trigger] r@[k] as int == v@[k] as int,
{
    let mut r: Vec<usize> = Vec::new();
    let mut i: usize = 0;
    while i < v.len()
        invariant
            i <= v@.len(),
            r@.len() == i,
            forall|k: int| 0 <= k < v@.len() ==> #[trigger] v@[k] <= usize::MAX,
            forall|k: int| 0 <= k < i ==> #[trigger] r@[k] as int == v@[k] as int,
        decreases v@.len() - i,
    {
        r.push(v[i] as usize);
        i += 1;
    }
    r
}

fn to_u32_vec(v: &Vec<u64>) -> (r: Vec<u32>)
    requires
        forall|k: int| 0 <= k < v@.len() ==> #[trigger] v@[k] <= u32::MAX,
    ensures
        r@.len() == v@.len(),
        forall|k: int| 0 <= k < v@.len() ==> #[trigger] r@[k] as int == v@[k] as int,
{
    let mut r: Vec<u32> = Vec::new();
    let mut i: usize = 0;
    while i < v.len()
        invariant
            i <= v@.len(),
            r@.len() == i,
            forall|k: int| 0 <= k < v@.len() ==> #[trigger] v@[k] <= u32::MAX,
            forall|k: int| 0 <= k < i ==> #[trigger] r@[k] as int == v@[k] as int,
        decreases v@.len() - i,
    {
        r.push(v[i] as u32);
        i += 1;
    }
    r
}

impl AvailableBlockSizesConfig {
    /// Reads the two comma-separated lists. Each must be set and parse in
    /// full, and they must have the same length.
    pub fn from_env(env: &EnvVars) -> (r: Result<Self, ConfigError>)
        ensures
            match env_lookup(env.entries(), "SUPPORTED_BLOCK_CHUNKS_SIZES"@) {
                None => fails_with(r, ConfigErrorKind::Missing, "SUPPORTED_BLOCK_CHUNKS_SIZES"@),
                Some(cs) => if !list_parses(cs, usize::MAX as u64) {
                    fails_with(r, ConfigErrorKind::Invalid, "SUPPORTED_BLOCK_CHUNKS_SIZES"@)
                } else {
                    match env_lookup(env.entries(), "SUPPORTED_BLOCK_CHUNKS_SIZES_SETUP_POWERS"@) {
                        None => fails_with(r, ConfigErrorKind::Missing, "SUPPORTED_BLOCK_CHUNKS_SIZES_SETUP_POWERS"@),
                        Some(ps) => if !list_parses(ps, u32::MAX as u64) {
                            fails_with(r, ConfigErrorKind::Invalid, "SUPPORTED_BLOCK_CHUNKS_SIZES_SETUP_POWERS"@)
                        } else if split_commas(cs).len() != split_commas(ps).len() {
                            fails_with(r, ConfigErrorKind::LengthMismatch, "SUPPORTED_BLOCK_CHUNKS_SIZES_SETUP_POWERS"@)
                        } else {
                            r matches Ok(c) && holds_list(c.blocks_chunks@.map_values(|x: usize| x as int), cs, usize::MAX as u64)
                                && holds_list(c.blocks_setup_power2@.map_values(|x: u32| x as int), ps, u32::MAX as u64)
                        },
                    }
                },
            },
    {
        let chunks = match env.lookup("SUPPORTED_BLOCK_CHUNKS_SIZES") {
            None => return Err(config_error(ConfigErrorKind::Missing, "SUPPORTED_BLOCK_CHUNKS_SIZES")),
            Some(v) => match parse_list(v.as_str(), usize::MAX as u64) {
                None => return Err(config_error(ConfigErrorKind::Invalid, "SUPPORTED_BLOCK_CHUNKS_SIZES")),
                Some(l) => l,
            },
        };
        let powers = match env.lookup("SUPPORTED_BLOCK_CHUNKS_SIZES_SETUP_POWERS") {
            None => return Err(config_error(ConfigErrorKind::Missing, "SUPPORTED_BLOCK_CHUNKS_SIZES_SETUP_POWERS")),
            Some(v) => match parse_list(v.as_str(), u32::MAX as u64) {
                None => return Err(config_error(ConfigErrorKind::Invalid, "SUPPORTED_BLOCK_CHUNKS_SIZES_SETUP_POWERS")),
                Some(l) => l,
            },
        };
        if chunks.len() != powers.len() {
            return Err(config_error(ConfigErrorKind::LengthMismatch, "SUPPORTED_BLOCK_CHUNKS_SIZES_SETUP_POWERS"));
        }
        proof {
            assert forall|k: int| 0 <= k < chunks@.len() implies #[trigger] chunks@[k] <= usize::MAX by {
                assert(Some(chunks@[k]) == parse_bounded(split_commas(env_lookup(env.entries(), "SUPPORTED_BLOCK_CHUNKS_SIZES"@)->Some_0)[k], usize::MAX as u64));
            }
            assert forall|k: int| 0 <= k < powers@.len() implies #[trigger] powers@[k] <= u32::MAX by {
                assert(Some(powers@[k]) == parse_bounded(split_commas(env_lookup(env.entries(), "SUPPORTED_BLOCK_CHUNKS_SIZES_SETUP_POWERS"@)->Some_0)[k], u32::MAX as u64));
            }
        }
        let blocks_chunks = to_usize_vec(&chunks);
        let blocks_setup_power2 = to_u32_vec(&powers);
        proof {
            let cv = blocks_chunks@.map_values(|x: usize| x as int);
            assert forall|k: int| 0 <= k < cv.len() implies #[trigger] cv[k] as u64 == chunks@[k] by {}
            let pv = blocks_setup_power2@.map_values(|x: u32| x as int);
            assert forall|k: int| 0 <= k < pv.len() implies #[trigger] pv[k] as u64 == powers@[k] by {}
        }
        Ok(AvailableBlockSizesConfig { blocks_chunks, blocks_setup_power2 })
    }
}

} // verus!
