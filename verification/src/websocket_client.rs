//! The client's settings, and what a poll starts from.

use vstd::prelude::*;
use vstd::string::*;
use crate::error::Error;
use crate::model::{Config, Measurement, Sample, Timestamp};
use crate::text::{decimal, decimal_of};

verus! {

/// Where the device listens, and the code that it lets us in with.
#[derive(Debug)]
pub struct WebsocketClientConfig {
    host_address: String,
    host_port: u32,
    login_code: String,
}

impl WebsocketClientConfig {
    pub closed spec fn spec_host_address(&self) -> Seq<char> {
        self.host_address@
    }

    pub closed spec fn spec_host_port(&self) -> u32 {
        self.host_port
    }

    pub closed spec fn spec_login_code(&self) -> Seq<char> {
        self.login_code@
    }

    /// Settings for the device at `host_address` and `host_port`. Every
    /// combination is accepted.
    pub fn new(host_address: String, host_port: u32, login_code: String) -> (result: Result<
        Self,
        Error,
    >)
        ensures
            result is Ok,
            result->Ok_0.spec_host_address() == host_address@,
            result->Ok_0.spec_host_port() == host_port,
            result->Ok_0.spec_login_code() == login_code@,
    {
        Ok(Self { host_address, host_port, login_code })
    }

    pub fn host_address(&self) -> (host_address: &String)
        ensures
            host_address@ == self.spec_host_address(),
    {
        &self.host_address
    }

    pub fn host_port(&self) -> (host_port: u32)
        ensures
            host_port == self.spec_host_port(),
    {
        self.host_port
    }

    pub fn login_code(&self) -> (login_code: &String)
        ensures
            login_code@ == self.spec_login_code(),
    {
        &self.login_code
    }
}

/// The address of the device's socket.
pub open spec fn endpoint_of(host_address: Seq<char>, host_port: u32) -> Seq<char> {
    "ws://"@ + host_address + ":"@ + decimal_of(host_port as nat)
}

/// The origin that is named when the socket is opened.
pub open spec fn origin_of(host_address: Seq<char>) -> Seq<char> {
    "http://"@ + host_address
}

/// The name under which every measurement of this client goes.
pub open spec fn source_name() -> Seq<char> {
    "jarvis-alpha-innotec-exporter"@
}

/// The length of an identifier: 32 hexadecimal digits in five groups.
pub const IDENTIFIER_LENGTH: usize = 36;

/// Calls `Uuid::new_v4` of the `uuid` crate and writes the identifier out
/// with its `Display`: the hyphenated form in lower case, which is 36
/// characters long. Which identifier it is depends on chance.
#[verifier::external_body]
fn fresh_identifier() -> (id: String)
    ensures
        id@.len() == IDENTIFIER_LENGTH,
{
    uuid::Uuid::new_v4().to_string()
}

/// Calls `Utc::now` of the `chrono` crate, and takes from what it returns
/// `timestamp` and `timestamp_subsec_nanos`. The nanoseconds of any such
/// time stay below two seconds, the second of them being for a leap
/// second. Nothing else is known of it. `Utc::now` gives up on a system
/// clock that stands before 1970.
#[verifier::external_body]
fn current_time() -> (now: Timestamp)
    ensures
        now.nanoseconds < 2_000_000_000,
{
    let now = chrono::Utc::now();
    Timestamp { seconds: now.timestamp(), nanoseconds: now.timestamp_subsec_nanos() }
}

/// The client that polls one device.
#[derive(Debug)]
pub struct WebsocketClient {
    config: WebsocketClientConfig,
}

impl WebsocketClient {
    pub closed spec fn spec_config(&self) -> WebsocketClientConfig {
        self.config
    }

    pub fn new(config: WebsocketClientConfig) -> (client: Self)
        ensures
            client.spec_config() == config,
    {
        Self { config }
    }

    pub fn config(&self) -> (config: &WebsocketClientConfig)
        ensures
            *config == self.spec_config(),
    {
        &self.config
    }

    /// The address at which the socket is opened.
    pub fn endpoint(&self) -> (endpoint: String)
        ensures
            endpoint@ == endpoint_of(
                self.spec_config().spec_host_address(),
                self.spec_config().spec_host_port(),
            ),
    {
        let mut endpoint = String::from_str("ws://");
        endpoint.append(self.config.host_address.as_str());
        endpoint.append(":");
        let port = decimal(self.config.host_port);
        endpoint.append(port.as_str());
        endpoint
    }

    /// The origin that is named when the socket is opened.
    pub fn origin(&self) -> (origin: String)
        ensures
            origin@ == origin_of(self.spec_config().spec_host_address()),
    {
        let mut origin = String::from_str("http://");
        origin.append(self.config.host_address.as_str());
        origin
    }

    /// The protocol that is agreed on when the socket is opened.
    pub fn protocol(&self) -> (protocol: &'static str)
        ensures
            protocol@ == "Lux_WS"@,
    {
        "Lux_WS"
    }

    /// The measurement that a poll starts from: a fresh identifier, this
    /// client's name as the source, the place from `config`, the time of
    /// the call, and no samples yet.
    pub fn begin_measurement(&self, config: &Config) -> (measurement: Measurement)
        ensures
            measurement.id@.len() == IDENTIFIER_LENGTH,
            measurement.source@ == source_name(),
            measurement.location == config.location,
            measurement.samples@ == Seq::<Sample>::empty(),
            measurement.measured_at_time.nanoseconds < 2_000_000_000,
    {
        Measurement {
            id: fresh_identifier(),
            source: String::from_str("jarvis-alpha-innotec-exporter"),
            location: config.location.clone(),
            samples: Vec::new(),
            measured_at_time: current_time(),
        }
    }
}

} // verus!
