//! Configuration and request parameters of the routing service, and what it
//! contributes to the API inventory.

use vstd::prelude::*;

use crate::api::{ApiLink, OgcApiInventory};
use vstd::string::StringExecFns;

verus! {

/// One routing service entry of the configuration.
pub struct RoutingServiceCfg {
    pub profile: Option<String>,
    pub gpkg: String,
    pub table: String,
    pub geom: String,
}

/// The routing server's configuration: its service entries.
pub struct RoutingServerCfg {
    pub service: Vec<RoutingServiceCfg>,
}

impl RoutingServerCfg {
    /// Assemble the configuration from the parsed service entries; reading
    /// and deserializing the configuration file happens outside the library.
    pub fn from_config(service: Vec<RoutingServiceCfg>) -> (r: Self)
        ensures
            r.service == service,
    {
        RoutingServerCfg { service }
    }
}

impl Default for RoutingServerCfg {
    /// An empty configuration: no routing services.
    fn default() -> (r: Self)
        ensures
            r.service@.len() == 0,
    {
        RoutingServerCfg { service: Vec::new() }
    }
}

/// The geometry type of a waypoint list.
#[derive(Clone, Copy, PartialEq, Eq, Structural, Debug)]
pub enum Type {
    MultiPoint,
}

/// Whether a route is computed synchronously or asynchronously.
#[derive(Clone, Copy, PartialEq, Eq, Structural, Debug)]
pub enum SyncMode {
    Sync,
    Async,
}

/// The query parameters of a route-computation request.
pub struct RouteParams {
    mode: Option<SyncMode>,
}

impl RouteParams {
    pub closed spec fn spec_mode(&self) -> Option<SyncMode> {
        self.mode
    }

    pub fn new(mode: Option<SyncMode>) -> (r: Self)
        ensures
            r.spec_mode() == mode,
    {
        RouteParams { mode }
    }

    /// Whether the request asks for asynchronous mode, which the route
    /// endpoint rejects as unsupported.
    pub fn is_async(&self) -> (r: bool)
        ensures
            r == (self.spec_mode() == Some(SyncMode::Async)),
    {
        match self.mode {
            Some(SyncMode::Async) => true,
            _ => false,
        }
    }
}

/// Register the routing service with the API inventory: one landing-page
/// link to the routes endpoint and its three conformance classes. The
/// OpenAPI document fragment is merged outside the library.
pub fn init_service(api: &mut OgcApiInventory)
    ensures
        final(api).landing_page_links@ == old(api).landing_page_links@.push(
            final(api).landing_page_links@.last(),
        ),
        ({
            let l = final(api).landing_page_links@.last();
            l.href@ == "/routes"@ && (l.rel matches Some(s) && s@ == "routes"@) && (l.type_
                matches Some(s) && s@ == "application/json"@) && (l.title matches Some(s) && s@
                == "OGC API routes"@) && l.hreflang is None && l.length is None
        }),
        final(api).conformance_classes@.len() == old(api).conformance_classes@.len() + 3,
        forall|j: int|
            0 <= j < old(api).conformance_classes@.len() ==> final(api).conformance_classes@[j]
                == old(api).conformance_classes@[j],
        final(api).conformance_classes@[old(api).conformance_classes@.len() as int]@
            == "http://www.opengis.net/spec/ogcapi-routes-1/1.0.0-draft.1/req/core"@,
        final(api).conformance_classes@[old(api).conformance_classes@.len() + 1int]@
            == "http://www.opengis.net/spec/ogcapi-processes-1/1.0/conf/json"@,
        final(api).conformance_classes@[old(api).conformance_classes@.len() + 2int]@
            == "http://www.opengis.net/spec/ogcapi-processes-1/1.0/conf/oas30"@,
        final(api).collections == old(api).collections,
{
    api.landing_page_links.push(
        ApiLink {
            href: String::from_str("/routes"),
            rel: Some(String::from_str("routes")),
            type_: Some(String::from_str("application/json")),
            title: Some(String::from_str("OGC API routes")),
            hreflang: None,
            length: None,
        },
    );
    api.conformance_classes.push(
        String::from_str("http://www.opengis.net/spec/ogcapi-routes-1/1.0.0-draft.1/req/core"),
    );
    api.conformance_classes.push(
        String::from_str("http://www.opengis.net/spec/ogcapi-processes-1/1.0/conf/json"),
    );
    api.conformance_classes.push(
        String::from_str("http://www.opengis.net/spec/ogcapi-processes-1/1.0/conf/oas30"),
    );
}

} // verus!
