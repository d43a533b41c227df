//! The parts that one export cycle needs, held together.
//!
//! A cycle reads what to measure, polls the device, and hands the
//! measurement on. Only the poll is this library's business: the three
//! other parts are the caller's, and are carried here as they are.

use vstd::prelude::*;
use crate::error::Error;
use crate::websocket_client::WebsocketClient;

verus! {

/// The parts of an export cycle: where the readings to take come from,
/// where measurements go, where the last one is kept, and the client that
/// polls the device.
pub struct ExporterServiceConfig<C, B, S> {
    config_client: C,
    bigquery_client: B,
    state_client: S,
    websocket_client: WebsocketClient,
}

impl<C, B, S> ExporterServiceConfig<C, B, S> {
    pub closed spec fn spec_config_client(&self) -> C {
        self.config_client
    }

    pub closed spec fn spec_bigquery_client(&self) -> B {
        self.bigquery_client
    }

    pub closed spec fn spec_state_client(&self) -> S {
        self.state_client
    }

    pub closed spec fn spec_websocket_client(&self) -> WebsocketClient {
        self.websocket_client
    }

    /// Puts the parts together. Every combination is accepted.
    pub fn new(
        config_client: C,
        bigquery_client: B,
        state_client: S,
        websocket_client: WebsocketClient,
    ) -> (result: Result<Self, Error>)
        ensures
            result is Ok,
            result->Ok_0.spec_config_client() == config_client,
            result->Ok_0.spec_bigquery_client() == bigquery_client,
            result->Ok_0.spec_state_client() == state_client,
            result->Ok_0.spec_websocket_client() == websocket_client,
    {
        Ok(Self { config_client, bigquery_client, state_client, websocket_client })
    }

    pub fn config_client(&self) -> (part: &C)
        ensures
            *part == self.spec_config_client(),
    {
        &self.config_client
    }

    pub fn bigquery_client(&self) -> (part: &B)
        ensures
            *part == self.spec_bigquery_client(),
    {
        &self.bigquery_client
    }

    pub fn state_client(&self) -> (part: &S)
        ensures
            *part == self.spec_state_client(),
    {
        &self.state_client
    }

    pub fn websocket_client(&self) -> (part: &WebsocketClient)
        ensures
            *part == self.spec_websocket_client(),
    {
        &self.websocket_client
    }
}

/// The service that runs export cycles with the parts it was given.
pub struct ExporterService<C, B, S> {
    config: ExporterServiceConfig<C, B, S>,
}

impl<C, B, S> ExporterService<C, B, S> {
    pub closed spec fn spec_config(&self) -> ExporterServiceConfig<C, B, S> {
        self.config
    }

    pub fn new(config: ExporterServiceConfig<C, B, S>) -> (service: Self)
        ensures
            service.spec_config() == config,
    {
        Self { config }
    }

    pub fn config(&self) -> (config: &ExporterServiceConfig<C, B, S>)
        ensures
            *config == self.spec_config(),
    {
        &self.config
    }
}

} // verus!
