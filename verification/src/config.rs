//! The protocol's timers and topology parameters, and the values derived
//! from them. Every time span is a number of milliseconds.

use vstd::prelude::*;
use crate::wire::{quad_value, Ipv4Addr};
use yaml_rust::ScanError;
use yaml_rust::Yaml;
use yaml_rust::YamlLoader;

verus! {

/// Factor of the delete period.
pub const DELETE_PERIOD_FACTOR: i64 = 5;

/// The settings of a node: those that a user chooses, the protocol's
/// parameters, and the values that follow from the parameters.
#[allow(non_snake_case)]
#[derive(Clone, Debug, PartialEq, Eq)]
pub struct Config {
    pub current_ip: Ipv4Addr,
    pub interface: String,
    pub broadcast_address: Ipv4Addr,
    pub port: u16,
    pub ACTIVE_ROUTE_TIMEOUT: i64,
    pub ALLOWED_HELLO_LOSS: u32,
    pub BLACKLIST_TIMEOUT: i64,
    pub DELETE_PERIOD: i64,
    pub HELLO_INTERVAL: i64,
    pub LOCAL_ADD_TTL: u32,
    pub MIN_REPAIR_TTL: usize,
    pub MY_ROUTE_TIMEOUT: i64,
    pub NET_DIAMETER: u32,
    pub NET_TRAVERSAL_TIME: i64,
    pub NEXT_HOP_WAIT: i64,
    pub NODE_TRAVERSAL_TIME: i64,
    pub PATH_DISCOVERY_TIME: i64,
    pub RERR_RATELIMIT: usize,
    pub RING_TRAVERSAL_TIME: i64,
    pub RREQ_RETRIES: u32,
    pub RREQ_RATELIMIT: usize,
    pub TIMEOUT_BUFFER: u32,
    pub TTL_START: usize,
    pub TTL_INCREMENT: usize,
    pub TTL_THRESHOLD: usize,
    pub TTL_VALUE: usize,
}

/// What a configuration file may set: one entry for each option it knows, empty
/// where the file does not give the option. Numbers are as the file has them.
#[derive(Clone, Debug, PartialEq, Eq)]
pub struct ConfigOptions {
    pub interface: Option<String>,
    pub broadcast_address: Option<Ipv4Addr>,
    pub port: Option<i64>,
    pub active_route_timeout: Option<i64>,
    pub allowed_hello_loss: Option<i64>,
    pub hello_interval: Option<i64>,
    pub local_add_ttl: Option<i64>,
    pub net_diameter: Option<i64>,
    pub node_traversal_time: Option<i64>,
    pub rerr_ratelimit: Option<i64>,
    pub rreq_retries: Option<i64>,
    pub rreq_ratelimit: Option<i64>,
    pub timeout_buffer: Option<i64>,
    pub ttl_start: Option<i64>,
    pub ttl_increment: Option<i64>,
    pub ttl_threshold: Option<i64>,
}

/// A value of a YAML document, as `yaml_rust` holds it.
#[verifier::external_type_specification]
#[verifier::external_body]
pub struct ExYaml(yaml_rust::Yaml);

/// The error with which `yaml_rust` refuses a text.
#[verifier::external_type_specification]
#[verifier::external_body]
pub struct ExScanError(yaml_rust::ScanError);

/// Why a configuration text was not taken over, or not wholly.
#[derive(Clone, Copy, Debug, PartialEq, Eq, Structural)]
pub enum ConfigError {
    /// The text is no YAML.
    BadYaml,
    /// The text holds no document.
    NoDocument,
    /// The chosen values were taken over, but a value that depends on them is
    /// too large for its field, so that the dependent values are the old ones.
    TooLarge,
}

/// `YamlLoader::load_from_str` of `yaml_rust`: the documents of a YAML text, or
/// the error of its scanner. Nothing is claimed of either.
#[verifier::external_body]
fn load_documents(contents: &str) -> (res: Result<Vec<Yaml>, ScanError>) {
    YamlLoader::load_from_str(contents)
}

/// Indexing of a `yaml_rust` value by a string: the value under `key` where
/// `doc` is a hash that has the key, else the crate's bad value. Nothing is
/// claimed of the result.
#[verifier::external_body]
fn field<'a>(doc: &'a Yaml, key: &str) -> (out: &'a Yaml) {
    &doc[key]
}

/// `Yaml::as_str` of `yaml_rust`, with the text copied: the text of a value
/// that is a string, nothing for any other value. Nothing is claimed of the
/// result.
#[verifier::external_body]
fn text_of(value: &Yaml) -> (out: Option<String>) {
    match value.as_str() {
        Some(text) => Some(text.to_owned()),
        None => None,
    }
}

/// `Yaml::as_i64` of `yaml_rust`: the number of a value that is an integer,
/// nothing for any other value. Nothing is claimed of the result.
#[verifier::external_body]
fn number_of(value: &Yaml) -> (out: Option<i64>) {
    value.as_i64()
}

/// The address that a text spells as a dotted quad, if there is a text and it spells one.
fn address_of(text: Option<String>) -> (out: Option<Ipv4Addr>)
    ensures
        out == (match text {
            Some(t) => quad_value(vstd::utf8::encode_utf8(t@)),
            None => None,
        }),
{
    match text {
        Some(t) => Ipv4Addr::parse(t.as_str()),
        None => None,
    }
}

/// Whether `x` is a number that an `i64` holds.
pub open spec fn fits_i64(x: int) -> bool {
    i64::MIN <= x <= i64::MAX
}

/// `x` times `y` where the product fits, else nothing.
fn times(x: i64, y: i64) -> (out: Option<i64>)
    ensures
        out == (if fits_i64(x * y) {
            Some((x * y) as i64)
        } else {
            None
        }),
{
    x.checked_mul(y)
}

/// `x` times `y` where `x` is there and the product fits, else nothing.
fn then_times(x: Option<i64>, y: i64) -> (out: Option<i64>)
    ensures
        out == (match x {
            Some(v) => if fits_i64(v * y) {
                Some((v * y) as i64)
            } else {
                None
            },
            None => None,
        }),
{
    match x {
        Some(v) => times(v, y),
        None => None,
    }
}

/// The time span that a file gives, or the one in place.
fn span_or(given: Option<i64>, held: i64) -> (out: i64)
    ensures
        out == (match given {
            Some(x) => x,
            None => held,
        }),
{
    match given {
        Some(x) => x,
        None => held,
    }
}

/// The number that a file gives, cut to 32 bits, or the one in place.
fn count_or(given: Option<i64>, held: u32) -> (out: u32)
    ensures
        out == (match given {
            Some(x) => x as u32,
            None => held,
        }),
{
    match given {
        Some(x) => #[verifier::truncate]
        (x as u32),
        None => held,
    }
}

/// The number that a file gives, cut to the width of a size, or the one in place.
fn size_or(given: Option<i64>, held: usize) -> (out: usize)
    ensures
        out == (match given {
            Some(x) => x as usize,
            None => held,
        }),
{
    match given {
        Some(x) => #[verifier::truncate]
        (x as usize),
        None => held,
    }
}

impl Config {
    /// The longer of the active route timeout and the hello interval.
    pub open spec fn longer_timeout(self) -> int {
        if self.ACTIVE_ROUTE_TIMEOUT > self.HELLO_INTERVAL {
            self.ACTIVE_ROUTE_TIMEOUT as int
        } else {
            self.HELLO_INTERVAL as int
        }
    }

    /// How long an invalid route is kept: five times the longer timeout.
    pub open spec fn delete_period(self) -> int {
        5 * self.longer_timeout()
    }

    /// The lifetime that a node gives to the route to itself.
    pub open spec fn my_route_timeout(self) -> int {
        2 * self.ACTIVE_ROUTE_TIMEOUT
    }

    /// The time that a message takes across the net and back.
    pub open spec fn net_traversal_time(self) -> int {
        2 * self.NODE_TRAVERSAL_TIME * self.NET_DIAMETER
    }

    /// How long a neighbour stays on the blacklist.
    pub open spec fn blacklist_timeout(self) -> int {
        self.net_traversal_time() * self.RREQ_RETRIES
    }

    /// How long a node waits for the acknowledgement of its next hop.
    pub open spec fn next_hop_wait(self) -> int {
        self.NODE_TRAVERSAL_TIME + 10
    }

    /// How long a route request is remembered.
    pub open spec fn path_discovery_time(self) -> int {
        2 * self.net_traversal_time()
    }

    /// How long a node waits for the answer to a request of limited reach.
    pub open spec fn ring_traversal_time(self) -> int {
        self.NODE_TRAVERSAL_TIME * 2 * (self.TTL_VALUE + self.TIMEOUT_BUFFER)
    }

    /// Whether every derived value, and every step on the way to it, is a
    /// number that an `i64` holds.
    pub open spec fn derivable(self) -> bool {
        &&& fits_i64(self.delete_period())
        &&& fits_i64(self.my_route_timeout())
        &&& fits_i64(2 * self.NODE_TRAVERSAL_TIME)
        &&& fits_i64(self.net_traversal_time())
        &&& fits_i64(self.blacklist_timeout())
        &&& fits_i64(self.next_hop_wait())
        &&& fits_i64(self.path_discovery_time())
        &&& fits_i64(2 * (self.TTL_VALUE + self.TIMEOUT_BUFFER))
        &&& fits_i64(self.ring_traversal_time())
    }

    /// The settings with every derived value set as its formula says.
    pub open spec fn with_derived(self) -> Config {
        Config {
            DELETE_PERIOD: self.delete_period() as i64,
            MY_ROUTE_TIMEOUT: self.my_route_timeout() as i64,
            NET_TRAVERSAL_TIME: self.net_traversal_time() as i64,
            BLACKLIST_TIMEOUT: self.blacklist_timeout() as i64,
            NEXT_HOP_WAIT: self.next_hop_wait() as i64,
            PATH_DISCOVERY_TIME: self.path_discovery_time() as i64,
            RING_TRAVERSAL_TIME: self.ring_traversal_time() as i64,
            ..self
        }
    }

    /// Whether the derived values are those that the formulas give.
    pub open spec fn derived_hold(self) -> bool {
        &&& self.DELETE_PERIOD == self.delete_period()
        &&& self.MY_ROUTE_TIMEOUT == self.my_route_timeout()
        &&& self.NET_TRAVERSAL_TIME == self.net_traversal_time()
        &&& self.BLACKLIST_TIMEOUT == self.blacklist_timeout()
        &&& self.NEXT_HOP_WAIT == self.next_hop_wait()
        &&& self.PATH_DISCOVERY_TIME == self.path_discovery_time()
        &&& self.RING_TRAVERSAL_TIME == self.ring_traversal_time()
    }

    /// Settings that a node can run with: the lifetime of a reverse route,
    /// which is twice the net traversal time less twice the node traversal
    /// time for each hop, is a number that an `i64` holds, for every hop count
    /// that a message can carry.
    pub open spec fn wf(self) -> bool {
        &&& fits_i64(2 * self.NET_TRAVERSAL_TIME)
        &&& fits_i64(2 * self.NET_TRAVERSAL_TIME - 510 * self.NODE_TRAVERSAL_TIME)
    }

    /// Whether `now`, a time in milliseconds, is one from which every deadline
    /// that the node sets can be counted.
    pub open spec fn in_time(self, now: i64) -> bool {
        &&& fits_i64(now + self.ACTIVE_ROUTE_TIMEOUT)
        &&& fits_i64(now + self.DELETE_PERIOD)
        &&& fits_i64(now + self.PATH_DISCOVERY_TIME)
        &&& fits_i64(now + u32::MAX)
    }

    /// The settings of RFC 3561, section 10, as a specification.
    pub open spec fn is_default(self) -> bool {
        &&& self.current_ip == Ipv4Addr { bits: 0 }
        &&& self.interface@ == "wlano"@
        &&& self.broadcast_address == Ipv4Addr { bits: 0xffff_ffff }
        &&& self.port == 1200
        &&& self.ACTIVE_ROUTE_TIMEOUT == 3000
        &&& self.ALLOWED_HELLO_LOSS == 2
        &&& self.BLACKLIST_TIMEOUT == 5000
        &&& self.DELETE_PERIOD == 15_000
        &&& self.HELLO_INTERVAL == 1000
        &&& self.LOCAL_ADD_TTL == 2
        &&& self.MIN_REPAIR_TTL == 0
        &&& self.MY_ROUTE_TIMEOUT == 6000
        &&& self.NET_DIAMETER == 35
        &&& self.NET_TRAVERSAL_TIME == 2800
        &&& self.NEXT_HOP_WAIT == 50
        &&& self.NODE_TRAVERSAL_TIME == 40
        &&& self.PATH_DISCOVERY_TIME == 5600
        &&& self.RERR_RATELIMIT == 10
        &&& self.RING_TRAVERSAL_TIME == 160
        &&& self.RREQ_RETRIES == 2
        &&& self.RREQ_RATELIMIT == 10
        &&& self.TIMEOUT_BUFFER == 2
        &&& self.TTL_START == 1
        &&& self.TTL_INCREMENT == 2
        &&& self.TTL_THRESHOLD == 7
        &&& self.TTL_VALUE == 0
    }

    /// Tells whether a node can run with these settings.
    pub fn is_wf(&self) -> (ok: bool)
        ensures
            ok == self.wf(),
    {
        let twice: i128 = 2 * (self.NET_TRAVERSAL_TIME as i128);
        let least: i128 = twice - 510 * (self.NODE_TRAVERSAL_TIME as i128);
        -0x8000_0000_0000_0000 <= twice && twice <= 0x7fff_ffff_ffff_ffff && -0x8000_0000_0000_0000
            <= least && least <= 0x7fff_ffff_ffff_ffff
    }

    /// Tells whether deadlines can be counted from `now`.
    pub fn is_in_time(&self, now: i64) -> (ok: bool)
        ensures
            ok == self.in_time(now),
    {
        self.ACTIVE_ROUTE_TIMEOUT.checked_add(now).is_some() && self.DELETE_PERIOD.checked_add(
            now,
        ).is_some() && self.PATH_DISCOVERY_TIME.checked_add(now).is_some() && now <= i64::MAX
            - 0xffff_ffff
    }

    /// The settings with what a configuration file gives put in place of what
    /// was there, before the derived values are computed again. A number is cut
    /// to the width of its field.
    pub open spec fn with_options(self, o: ConfigOptions) -> Config {
        Config {
            interface: match o.interface {
                Some(x) => x,
                None => self.interface,
            },
            broadcast_address: match o.broadcast_address {
                Some(x) => x,
                None => self.broadcast_address,
            },
            port: match o.port {
                Some(x) => x as u16,
                None => self.port,
            },
            ACTIVE_ROUTE_TIMEOUT: match o.active_route_timeout {
                Some(x) => x,
                None => self.ACTIVE_ROUTE_TIMEOUT,
            },
            ALLOWED_HELLO_LOSS: match o.allowed_hello_loss {
                Some(x) => x as u32,
                None => self.ALLOWED_HELLO_LOSS,
            },
            HELLO_INTERVAL: match o.hello_interval {
                Some(x) => x,
                None => self.HELLO_INTERVAL,
            },
            LOCAL_ADD_TTL: match o.local_add_ttl {
                Some(x) => x as u32,
                None => self.LOCAL_ADD_TTL,
            },
            NET_DIAMETER: match o.net_diameter {
                Some(x) => x as u32,
                None => self.NET_DIAMETER,
            },
            NODE_TRAVERSAL_TIME: match o.node_traversal_time {
                Some(x) => x,
                None => self.NODE_TRAVERSAL_TIME,
            },
            RERR_RATELIMIT: match o.rerr_ratelimit {
                Some(x) => x as usize,
                None => self.RERR_RATELIMIT,
            },
            RREQ_RETRIES: match o.rreq_retries {
                Some(x) => x as u32,
                None => self.RREQ_RETRIES,
            },
            RREQ_RATELIMIT: match o.rreq_ratelimit {
                Some(x) => x as usize,
                None => self.RREQ_RATELIMIT,
            },
            TIMEOUT_BUFFER: match o.timeout_buffer {
                Some(x) => x as u32,
                None => self.TIMEOUT_BUFFER,
            },
            TTL_START: match o.ttl_start {
                Some(x) => x as usize,
                None => self.TTL_START,
            },
            TTL_INCREMENT: match o.ttl_increment {
                Some(x) => x as usize,
                None => self.TTL_INCREMENT,
            },
            TTL_THRESHOLD: match o.ttl_threshold {
                Some(x) => x as usize,
                None => self.TTL_THRESHOLD,
            },
            ..self
        }
    }

    /// Takes over what the text of a configuration file gives, then computes
    /// the derived values again. Of the documents in the text the first counts.
    /// An option that the document lacks, or gives in another form than its
    /// own, stays as it is. A text that cannot be read changes nothing.
    pub fn read_config(&mut self, contents: &str) -> (res: Result<(), ConfigError>)
        ensures
            match res {
                Ok(_) => exists|o: ConfigOptions|
                    #![trigger old(self).with_options(o)]
                    old(self).with_options(o).derivable() && *final(self) == old(
                        self,
                    ).with_options(o).with_derived(),
                Err(ConfigError::TooLarge) => exists|o: ConfigOptions|
                    #![trigger old(self).with_options(o)]
                    !old(self).with_options(o).derivable() && *final(self) == old(
                        self,
                    ).with_options(o),
                Err(_) => *final(self) == *old(self),
            },
    {
        let documents: Vec<Yaml> = match load_documents(contents) {
            Ok(documents) => documents,
            Err(_) => {
                return Err(ConfigError::BadYaml);
            },
        };
        if documents.len() == 0 {
            return Err(ConfigError::NoDocument);
        }
        let doc: &Yaml = &documents[0];
        let options = ConfigOptions {
            interface: text_of(field(doc, "Interface")),
            broadcast_address: address_of(text_of(field(doc, "BroadcastAddress"))),
            port: number_of(field(doc, "Port")),
            active_route_timeout: number_of(field(doc, "ACTIVE_ROUTE_TIMEOUT")),
            allowed_hello_loss: number_of(field(doc, "ALLOWED_HELLO_LOSS")),
            hello_interval: number_of(field(doc, "HELLO_INTERVAL")),
            local_add_ttl: number_of(field(doc, "LOCAL_ADD_TTL")),
            net_diameter: number_of(field(doc, "NET_DIAMETER")),
            node_traversal_time: number_of(field(doc, "NODE_TRAVERSAL_TIME")),
            rerr_ratelimit: number_of(field(doc, "RERR_RATELIMIT")),
            rreq_retries: number_of(field(doc, "RREQ_RETRIES")),
            rreq_ratelimit: number_of(field(doc, "RREQ_RATELIMIT")),
            timeout_buffer: number_of(field(doc, "TIMEOUT_BUFFER")),
            ttl_start: number_of(field(doc, "TTL_START")),
            ttl_increment: number_of(field(doc, "TTL_INCREMENT")),
            ttl_threshold: number_of(field(doc, "TTL_THRESHOLD")),
        };
        let ghost o = options;
        if self.apply_options(options) {
            assert(old(self).with_options(o).derivable());
            Ok(())
        } else {
            assert(!old(self).with_options(o).derivable());
            Err(ConfigError::TooLarge)
        }
    }

    /// Takes over the options that a configuration file gives, then computes
    /// the derived values again. Returns whether they could be computed; where
    /// they could not, the chosen values are in place and the derived ones are
    /// the old.
    pub fn apply_options(&mut self, options: ConfigOptions) -> (done: bool)
        ensures
            done == old(self).with_options(options).derivable(),
            done ==> *final(self) == old(self).with_options(options).with_derived(),
            !done ==> *final(self) == old(self).with_options(options),
    {
        if let Some(x) = options.interface {
            self.interface = x;
        }
        self.broadcast_address = match options.broadcast_address {
            Some(x) => x,
            None => self.broadcast_address,
        };
        self.port = match options.port {
            Some(x) => #[verifier::truncate]
            (x as u16),
            None => self.port,
        };
        self.ACTIVE_ROUTE_TIMEOUT = span_or(options.active_route_timeout, self.ACTIVE_ROUTE_TIMEOUT);
        self.ALLOWED_HELLO_LOSS = count_or(options.allowed_hello_loss, self.ALLOWED_HELLO_LOSS);
        self.HELLO_INTERVAL = span_or(options.hello_interval, self.HELLO_INTERVAL);
        self.LOCAL_ADD_TTL = count_or(options.local_add_ttl, self.LOCAL_ADD_TTL);
        self.NET_DIAMETER = count_or(options.net_diameter, self.NET_DIAMETER);
        self.NODE_TRAVERSAL_TIME = span_or(options.node_traversal_time, self.NODE_TRAVERSAL_TIME);
        self.RERR_RATELIMIT = size_or(options.rerr_ratelimit, self.RERR_RATELIMIT);
        self.RREQ_RETRIES = count_or(options.rreq_retries, self.RREQ_RETRIES);
        self.RREQ_RATELIMIT = size_or(options.rreq_ratelimit, self.RREQ_RATELIMIT);
        self.TIMEOUT_BUFFER = count_or(options.timeout_buffer, self.TIMEOUT_BUFFER);
        self.TTL_START = size_or(options.ttl_start, self.TTL_START);
        self.TTL_INCREMENT = size_or(options.ttl_increment, self.TTL_INCREMENT);
        self.TTL_THRESHOLD = size_or(options.ttl_threshold, self.TTL_THRESHOLD);
        assert(*self == old(self).with_options(options));
        self.compute_values()
    }

    /// The settings with what the command line gives put in place of what was there.
    pub open spec fn with_args(self, current_ip: Option<Ipv4Addr>, port: Option<u16>) -> Config {
        Config {
            current_ip: match current_ip {
                Some(ip) => ip,
                None => self.current_ip,
            },
            port: match port {
                Some(p) => p,
                None => self.port,
            },
            ..self
        }
    }

    /// Takes over the address and the port that the command line gives.
    pub fn read_args(&mut self, current_ip: Option<Ipv4Addr>, port: Option<u16>)
        ensures
            *final(self) == old(self).with_args(current_ip, port),
    {
        if let Some(ip) = current_ip {
            self.current_ip = ip;
        }
        if let Some(p) = port {
            self.port = p;
        }
    }

    /// Whether the settings are what a configuration text can make of the
    /// settings `before`: these unchanged, or with some options taken over and
    /// the derived values computed again where they fit.
    pub open spec fn read_from(self, before: Config) -> bool {
        ||| self == before
        ||| exists|o: ConfigOptions|
            #![trigger before.with_options(o)]
            before.with_options(o).derivable() && self == before.with_options(o).with_derived()
        ||| exists|o: ConfigOptions|
            #![trigger before.with_options(o)]
            !before.with_options(o).derivable() && self == before.with_options(o)
    }

    /// The settings of a node: the defaults, changed by the text of a
    /// configuration file where there is one, then by the address and the
    /// port of the command line where it gives them.
    pub fn new(file: Option<&str>, current_ip: Option<Ipv4Addr>, port: Option<u16>) -> (c: Config)
        ensures
            exists|d: Config, f: Config|
                #![trigger f.read_from(d)]
                f.read_from(d) && d.is_default() && (file is None ==> f == d) && c == f.with_args(
                    current_ip,
                    port,
                ),
    {
        let mut config: Config = Config::default();
        let ghost d: Config = config;
        if let Some(contents) = file {
            let _ = config.read_config(contents);
        }
        let ghost f: Config = config;
        config.read_args(current_ip, port);
        assert(f.read_from(d) && d.is_default() && (file is None ==> f == d) && config
            == f.with_args(current_ip, port));
        config
    }

    /// Computes the values that depend on the chosen ones. Where one of them is
    /// too large for its field nothing is changed and `false` is returned.
    pub fn compute_values(&mut self) -> (done: bool)
        ensures
            done == old(self).derivable(),
            done ==> *final(self) == old(self).with_derived(),
            !done ==> *final(self) == *old(self),
    {
        let longer: i64 = if self.ACTIVE_ROUTE_TIMEOUT > self.HELLO_INTERVAL {
            self.ACTIVE_ROUTE_TIMEOUT
        } else {
            self.HELLO_INTERVAL
        };
        let delete_period: Option<i64> = times(longer, DELETE_PERIOD_FACTOR);
        let my_route_timeout: Option<i64> = times(self.ACTIVE_ROUTE_TIMEOUT, 2);
        let net_traversal_time: Option<i64> = then_times(
            times(self.NODE_TRAVERSAL_TIME, 2),
            self.NET_DIAMETER as i64,
        );
        let blacklist_timeout: Option<i64> = then_times(
            net_traversal_time,
            self.RREQ_RETRIES as i64,
        );
        let next_hop_wait: Option<i64> = self.NODE_TRAVERSAL_TIME.checked_add(10);
        let path_discovery_time: Option<i64> = then_times(net_traversal_time, 2);
        let rounds: u128 = 2 * (self.TTL_VALUE as u128 + self.TIMEOUT_BUFFER as u128);
        let ring_traversal_time: Option<i64> = if rounds <= 0x7fff_ffff_ffff_ffff {
            then_times(times(self.NODE_TRAVERSAL_TIME, 2), (rounds / 2) as i64)
        } else {
            None
        };
        proof {
            let n = self.NODE_TRAVERSAL_TIME as int;
            let d = self.NET_DIAMETER as int;
            let r = self.RREQ_RETRIES as int;
            let t = self.TTL_VALUE as int + self.TIMEOUT_BUFFER as int;
            assert(2 * n * d == (2 * n) * d);
            assert(2 * (2 * n * d) == ((2 * n) * d) * 2);
            assert(n * 2 * t == (2 * n) * t) by (nonlinear_arith);
        }
        match (
            delete_period,
            my_route_timeout,
            net_traversal_time,
            blacklist_timeout,
            next_hop_wait,
            path_discovery_time,
            ring_traversal_time,
        ) {
            (Some(dp), Some(mrt), Some(ntt), Some(bt), Some(nhw), Some(pdt), Some(rtt)) => {
                self.DELETE_PERIOD = dp;
                self.MY_ROUTE_TIMEOUT = mrt;
                self.NET_TRAVERSAL_TIME = ntt;
                self.BLACKLIST_TIMEOUT = bt;
                self.NEXT_HOP_WAIT = nhw;
                self.PATH_DISCOVERY_TIME = pdt;
                self.RING_TRAVERSAL_TIME = rtt;
                true
            },
            _ => false,
        }
    }
}

impl Default for Config {
    /// The settings of RFC 3561, section 10.
    fn default() -> (c: Config)
        ensures
            c.is_default(),
            c.wf(),
    {
        Config {
            current_ip: Ipv4Addr::from_bits(0),
            interface: "wlano".to_owned(),
            broadcast_address: Ipv4Addr::from_bits(0xffff_ffff),
            port: 1200,
            ACTIVE_ROUTE_TIMEOUT: 3000,
            ALLOWED_HELLO_LOSS: 2,
            BLACKLIST_TIMEOUT: 5000,
            DELETE_PERIOD: 15_000,
            HELLO_INTERVAL: 1000,
            LOCAL_ADD_TTL: 2,
            MIN_REPAIR_TTL: 0,
            MY_ROUTE_TIMEOUT: 6000,
            NET_DIAMETER: 35,
            NET_TRAVERSAL_TIME: 2800,
            NEXT_HOP_WAIT: 50,
            NODE_TRAVERSAL_TIME: 40,
            PATH_DISCOVERY_TIME: 5600,
            RERR_RATELIMIT: 10,
            RING_TRAVERSAL_TIME: 160,
            RREQ_RETRIES: 2,
            RREQ_RATELIMIT: 10,
            TIMEOUT_BUFFER: 2,
            TTL_START: 1,
            TTL_INCREMENT: 2,
            TTL_THRESHOLD: 7,
            TTL_VALUE: 0,
        }
    }
}

/// Settings whose derived values were computed hold them as the formulas give
/// them.
pub proof fn lemma_derived_hold(c: Config)
    requires
        c.derivable(),
    ensures
        c.with_derived().derived_hold(),
{
}

} // verus!
