//! Indexer configuration — everything needed to describe what to watch.

use std::time::Duration;
use vstd::prelude::*;

use crate::error::IndexerError;
use crate::text::{failure_text, parse_decimal, parse_unsigned, same_text, IntParseFailure};

verus! {

// ─── Durations ───────────────────────────────────────────────────────────────

/// The name for what `Duration::as_secs` returns: the whole seconds of `d`.
pub uninterp spec fn whole_secs(d: Duration) -> u64;

/// The name for what `Duration::from_secs` returns for `secs`.
pub uninterp spec fn secs_duration(secs: u64) -> Duration;

/// Calls `Duration::from_secs`. Claimed: the result is the named function of
/// `secs`, and it holds `secs` whole seconds (as `as_secs` reports them).
#[verifier::external_body]
pub(crate) fn duration_from_secs(secs: u64) -> (d: Duration)
    ensures
        d == secs_duration(secs),
        whole_secs(d) == secs,
{
    Duration::from_secs(secs)
}

/// Calls `Duration::as_secs`. Claimed: the result is the named function of `d`.
#[verifier::external_body]
pub(crate) fn duration_as_secs(d: &Duration) -> (s: u64)
    ensures
        s == whole_secs(*d),
{
    d.as_secs()
}

// ─── Networks ────────────────────────────────────────────────────────────────

/// Which Stellar network to connect to.
#[derive(Debug, Clone, PartialEq, Eq)]
pub enum Network {
    /// Stellar Mainnet
    Mainnet,
    /// Stellar Testnet
    Testnet,
    /// Stellar Futurenet (bleeding-edge)
    Futurenet,
    /// A fully custom RPC endpoint (e.g. private node, local sandbox)
    Custom(String),
}

/// The value of a [`Network`].
pub enum NetworkView {
    Mainnet,
    Testnet,
    Futurenet,
    Custom(Seq<char>),
}

impl View for Network {
    type V = NetworkView;

    open spec fn view(&self) -> NetworkView {
        match self {
            Network::Mainnet => NetworkView::Mainnet,
            Network::Testnet => NetworkView::Testnet,
            Network::Futurenet => NetworkView::Futurenet,
            Network::Custom(url) => NetworkView::Custom(url@),
        }
    }
}

/// The RPC URL of each network.
pub open spec fn network_url(n: NetworkView) -> Seq<char> {
    match n {
        NetworkView::Mainnet => "https://mainnet.sorobanrpc.com"@,
        NetworkView::Testnet => "https://soroban-testnet.stellar.org"@,
        NetworkView::Futurenet => "https://rpc-futurenet.stellar.org"@,
        NetworkView::Custom(url) => url,
    }
}

/// The network named `lowered` (a name already folded to lower case): one of
/// the well-known names, or else a custom endpoint at `custom`.
pub open spec fn network_named(lowered: Seq<char>, custom: Seq<char>) -> NetworkView {
    if lowered == "mainnet"@ {
        NetworkView::Mainnet
    } else if lowered == "testnet"@ {
        NetworkView::Testnet
    } else if lowered == "futurenet"@ {
        NetworkView::Futurenet
    } else {
        NetworkView::Custom(custom)
    }
}

impl Network {
    /// Returns the canonical RPC URL for the network.
    pub fn rpc_url(&self) -> (r: String)
        ensures
            r@ == network_url(self@),
    {
        match self {
            Network::Mainnet => "https://mainnet.sorobanrpc.com".to_owned(),
            Network::Testnet => "https://soroban-testnet.stellar.org".to_owned(),
            Network::Futurenet => "https://rpc-futurenet.stellar.org".to_owned(),
            Network::Custom(url) => url.clone(),
        }
    }

    /// The network whose name is `lowered` (already folded to lower case):
    /// `mainnet`, `testnet`, `futurenet`, or else a custom RPC URL `custom`.
    pub fn from_lowercase_name(lowered: &str, custom: String) -> (r: Network)
        ensures
            r@ == network_named(lowered@, custom@),
    {
        if same_text(lowered, "mainnet") {
            Network::Mainnet
        } else if same_text(lowered, "testnet") {
            Network::Testnet
        } else if same_text(lowered, "futurenet") {
            Network::Futurenet
        } else {
            Network::Custom(custom)
        }
    }
}

// ─── Poll interval ───────────────────────────────────────────────────────────

/// How often to poll the RPC for new events.
#[derive(Debug, Clone, Copy)]
pub enum PollInterval {
    /// Every N seconds (default: 6s, matching Stellar ledger close time)
    Seconds(u64),
    /// Custom duration
    Duration(Duration),
}

/// The seconds between polls when nothing else is configured: one ledger
/// close time, about 5 to 6 seconds.
pub const DEFAULT_POLL_SECS: u64 = 6;

/// The `Duration` of a poll interval.
pub open spec fn interval_duration(p: PollInterval) -> Duration {
    match p {
        PollInterval::Seconds(s) => secs_duration(s),
        PollInterval::Duration(d) => d,
    }
}

impl PollInterval {
    /// The interval as a `Duration`.
    pub fn as_duration(&self) -> (r: Duration)
        ensures
            r == interval_duration(*self),
    {
        match self {
            PollInterval::Seconds(s) => duration_from_secs(*s),
            PollInterval::Duration(d) => *d,
        }
    }
}

impl Default for PollInterval {
    fn default() -> (r: Self)
        ensures
            r == PollInterval::Seconds(DEFAULT_POLL_SECS),
    {
        PollInterval::Seconds(DEFAULT_POLL_SECS)
    }
}

// ─── Indexer configuration ───────────────────────────────────────────────────

/// Events fetched per RPC call when nothing else is configured.
pub const DEFAULT_MAX_EVENTS_PER_POLL: u32 = 100;

/// The smallest and largest number of events one RPC call may ask for.
pub const MIN_EVENTS_PER_POLL: u32 = 1;
pub const MAX_EVENTS_PER_POLL: u32 = 10_000;

/// Full configuration for one indexer instance.
///
/// Use the builder methods to configure, then pass to `EventIndexer::new`.
#[derive(Debug, Clone)]
pub struct IndexerConfig {
    /// The Soroban contract ID to watch (Strkey-encoded, C...)
    pub contract_id: String,
    /// Which network / RPC endpoint to connect to
    pub network: Network,
    /// Ledger sequence number to start from.
    /// If None, starts from (latest_ledger - 7_days_of_ledgers) automatically.
    pub start_ledger: Option<u32>,
    /// Polling interval between RPC calls
    pub poll_interval: PollInterval,
    /// Maximum number of events to fetch per RPC call (1..=10000)
    pub max_events_per_poll: u32,
}

/// `v` clamped to `lo..=hi`.
pub open spec fn clamp(v: int, lo: int, hi: int) -> int {
    if v < lo { lo } else if v > hi { hi } else { v }
}

impl IndexerConfig {
    /// Create a new config for the given contract ID: Testnet, start ledger
    /// chosen automatically, the default poll interval, 100 events per poll.
    pub fn new(contract_id: &str) -> (r: Self)
        ensures
            r.contract_id@ == contract_id@,
            r.network == Network::Testnet,
            r.start_ledger is None,
            r.poll_interval == PollInterval::Seconds(DEFAULT_POLL_SECS),
            r.max_events_per_poll == DEFAULT_MAX_EVENTS_PER_POLL,
    {
        IndexerConfig {
            contract_id: contract_id.to_owned(),
            network: Network::Testnet,
            start_ledger: None,
            poll_interval: PollInterval::default(),
            max_events_per_poll: DEFAULT_MAX_EVENTS_PER_POLL,
        }
    }

    /// Set the target network.
    pub fn network(self, network: Network) -> (r: Self)
        ensures
            r == (IndexerConfig { network, ..self }),
    {
        IndexerConfig { network, ..self }
    }

    /// Set a custom RPC URL (shorthand for `network(Network::Custom(url))`).
    pub fn rpc_url(self, url: &str) -> (r: Self)
        ensures
            r.network@ == NetworkView::Custom(url@),
            r.contract_id == self.contract_id,
            r.start_ledger == self.start_ledger,
            r.poll_interval == self.poll_interval,
            r.max_events_per_poll == self.max_events_per_poll,
    {
        IndexerConfig { network: Network::Custom(url.to_owned()), ..self }
    }

    /// Set the starting ledger sequence number.
    pub fn start_ledger(self, ledger: u32) -> (r: Self)
        ensures
            r == (IndexerConfig { start_ledger: Some(ledger), ..self }),
    {
        IndexerConfig { start_ledger: Some(ledger), ..self }
    }

    /// Set the polling interval in seconds.
    pub fn poll_interval_secs(self, secs: u64) -> (r: Self)
        ensures
            r == (IndexerConfig { poll_interval: PollInterval::Seconds(secs), ..self }),
    {
        IndexerConfig { poll_interval: PollInterval::Seconds(secs), ..self }
    }

    /// Set the maximum events to fetch per RPC round-trip, clamped to 1..=10000.
    pub fn max_events_per_poll(self, limit: u32) -> (r: Self)
        ensures
            r.max_events_per_poll == clamp(limit as int, MIN_EVENTS_PER_POLL as int, MAX_EVENTS_PER_POLL as int),
            r == (IndexerConfig { max_events_per_poll: r.max_events_per_poll, ..self }),
    {
        let clamped = if limit < MIN_EVENTS_PER_POLL {
            MIN_EVENTS_PER_POLL
        } else if limit > MAX_EVENTS_PER_POLL {
            MAX_EVENTS_PER_POLL
        } else {
            limit
        };
        IndexerConfig { max_events_per_poll: clamped, ..self }
    }
}

// ─── Configuration from environment values ──────────────────────────────────

/// The name for what `str::to_lowercase` returns.
pub uninterp spec fn lowercase_of(s: Seq<char>) -> Seq<char>;

/// The name for what `format!("{:?}", s)` gives for a string: `s` quoted,
/// with the characters that `Debug` escapes escaped.
pub uninterp spec fn debug_quoted(s: Seq<char>) -> Seq<char>;

/// Calls `str::to_lowercase`. Claimed: the result is the named function of `s`.
#[verifier::external_body]
pub(crate) fn to_lowercase(s: &str) -> (r: String)
    ensures
        r@ == lowercase_of(s@),
{
    s.to_lowercase()
}

/// Formats `s` with `str`'s `Debug` impl. Claimed: the result is the named
/// function of `s`.
#[verifier::external_body]
fn debug_text(s: &str) -> (r: String)
    ensures
        r@ == debug_quoted(s@),
{
    format!("{s:?}")
}

/// The characters of an optional string.
pub open spec fn opt_text(o: Option<String>) -> Option<Seq<char>> {
    match o {
        Some(s) => Some(s@),
        None => None,
    }
}

/// The message for a variable `var` whose value `value` does not parse.
pub open spec fn invalid_value_text(var: Seq<char>, value: Seq<char>, k: IntParseFailure) -> Seq<char> {
    "invalid "@ + var + " ("@ + debug_quoted(value) + "): "@ + failure_text(k)
}

/// The message when `CONTRACT_ID` is not set.
pub open spec fn missing_contract_text() -> Seq<char> {
    "CONTRACT_ID environment variable is required"@
}

/// What the configuration variables give: contract ID, network, start
/// ledger and poll seconds, or the message of the first variable that fails
/// (`CONTRACT_ID` missing, then `START_LEDGER`, then `POLL_INTERVAL_SECS`).
pub open spec fn config_from_vars(
    contract_id: Option<Seq<char>>,
    network: Option<Seq<char>>,
    start_ledger: Option<Seq<char>>,
    poll_interval_secs: Option<Seq<char>>,
) -> Result<(Seq<char>, NetworkView, Option<u32>, u64), Seq<char>> {
    match contract_id {
        None => Err(missing_contract_text()),
        Some(id) => {
            let net = match network {
                Some(v) => network_named(lowercase_of(v), v),
                None => NetworkView::Testnet,
            };
            let start: Result<Option<u32>, Seq<char>> = match start_ledger {
                None => Ok(None),
                Some(v) => match parse_unsigned(v, u32::MAX as int) {
                    Ok(n) => Ok(Some(n as u32)),
                    Err(k) => Err(invalid_value_text("START_LEDGER"@, v, k)),
                },
            };
            let poll: Result<u64, Seq<char>> = match poll_interval_secs {
                None => Ok(DEFAULT_POLL_SECS),
                Some(v) => match parse_unsigned(v, u64::MAX as int) {
                    Ok(n) => Ok(n as u64),
                    Err(k) => Err(invalid_value_text("POLL_INTERVAL_SECS"@, v, k)),
                },
            };
            match (start, poll) {
                (Err(m), _) => Err(m),
                (Ok(_), Err(m)) => Err(m),
                (Ok(s), Ok(p)) => Ok((id, net, s, p)),
            }
        },
    }
}

/// The configuration message for `var` = `value` failing with `k`.
fn invalid_value_message(var: &str, value: &str, k: IntParseFailure) -> (r: String)
    ensures
        r@ == invalid_value_text(var@, value@, k),
{
    let mut m = "invalid ".to_owned();
    m.append(var);
    m.append(" (");
    let quoted = debug_text(value);
    m.append(quoted.as_str());
    m.append("): ");
    m.append(k.message());
    assert(m@ =~= invalid_value_text(var@, value@, k));
    m
}

impl IndexerConfig {
    /// Builds a config from the values of the variables `CONTRACT_ID`
    /// (required), `STELLAR_NETWORK` (`mainnet`, `testnet`, `futurenet` in
    /// any case, or a custom RPC URL; default testnet), `START_LEDGER`
    /// (default: chosen automatically) and `POLL_INTERVAL_SECS` (default 6),
    /// each `None` where the variable is unset.
    pub fn from_vars(
        contract_id: Option<String>,
        network: Option<String>,
        start_ledger: Option<String>,
        poll_interval_secs: Option<String>,
    ) -> (r: Result<IndexerConfig, IndexerError>)
        ensures
            match (r, config_from_vars(
                opt_text(contract_id),
                opt_text(network),
                opt_text(start_ledger),
                opt_text(poll_interval_secs),
            )) {
                (Ok(c), Ok(t)) => c.contract_id@ == t.0 && c.network@ == t.1 && c.start_ledger
                    == t.2 && c.poll_interval == PollInterval::Seconds(t.3)
                    && c.max_events_per_poll == DEFAULT_MAX_EVENTS_PER_POLL,
                (Err(IndexerError::Config(m)), Err(msg)) => m@ == msg,
                _ => false,
            },
    {
        let contract_id = match contract_id {
            Some(id) => id,
            None => {
                return Err(IndexerError::Config("CONTRACT_ID environment variable is required".to_owned()));
            },
        };
        let network = match network {
            Some(value) => {
                let lowered = to_lowercase(value.as_str());
                Network::from_lowercase_name(lowered.as_str(), value)
            },
            None => Network::Testnet,
        };
        let start_ledger = match start_ledger {
            Some(value) => match parse_decimal(value.as_str(), u32::MAX as u64) {
                Ok(n) => Some(n as u32),
                Err(k) => {
                    return Err(IndexerError::Config(invalid_value_message("START_LEDGER", value.as_str(), k)));
                },
            },
            None => None,
        };
        let poll_interval = match poll_interval_secs {
            Some(value) => match parse_decimal(value.as_str(), u64::MAX) {
                Ok(n) => PollInterval::Seconds(n),
                Err(k) => {
                    return Err(IndexerError::Config(invalid_value_message("POLL_INTERVAL_SECS", value.as_str(), k)));
                },
            },
            None => PollInterval::default(),
        };
        Ok(IndexerConfig {
            contract_id,
            network,
            start_ledger,
            poll_interval,
            max_events_per_poll: DEFAULT_MAX_EVENTS_PER_POLL,
        })
    }
}

} // verus!
