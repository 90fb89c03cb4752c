use vstd::prelude::*;

use crate::paths::view_of;
use crate::text::{append_decimal, decimal_chars};

verus! {

/// The port served on when none is configured.
pub fn default_port() -> (r: u16)
    ensures
        r == 5800,
{
    5800
}

/// Settings of the Railway deployment, when the service runs there.
#[derive(Debug, Clone)]
pub struct RailwayConfig {
    pub railway_token: Option<String>,
    pub railway_project_id: Option<String>,
    pub railway_service_id: Option<String>,
    pub railway_environment_id: Option<String>,
    pub railway_deployment_id: Option<String>,
    pub railway_public_domain: Option<String>,
}

/// The dashboard page of a deployment's build log.
pub open spec fn build_logs_url_of(c: RailwayConfig) -> Option<Seq<char>> {
    match (c.railway_project_id, c.railway_service_id, c.railway_environment_id) {
        (Some(p), Some(s), Some(e)) => Some(
            "https://railway.com/project/"@ + p@ + "/service/"@ + s@ + "?environmentId="@ + e@
                + "&id="@ + match c.railway_deployment_id {
                Some(d) => d@,
                None => "latest"@,
            } + "#build"@,
        ),
        _ => None,
    }
}

impl RailwayConfig {
    /// Whether the service runs on Railway (a project id is set).
    pub fn is_railway(&self) -> (r: bool)
        ensures
            r == self.railway_project_id is Some,
    {
        self.railway_project_id.is_some()
    }

    /// Whether a Railway API token is configured.
    pub fn has_token(&self) -> (r: bool)
        ensures
            r == self.railway_token is Some,
    {
        self.railway_token.is_some()
    }

    /// The dashboard page of the build log, when project, service and
    /// environment are known; the deployment defaults to the latest.
    pub fn build_logs_url(&self) -> (r: Option<String>)
        ensures
            view_of(r) == build_logs_url_of(*self),
    {
        let project_id = match &self.railway_project_id {
            Some(p) => p,
            None => {
                return None;
            },
        };
        let service_id = match &self.railway_service_id {
            Some(s) => s,
            None => {
                return None;
            },
        };
        let environment_id = match &self.railway_environment_id {
            Some(e) => e,
            None => {
                return None;
            },
        };
        let mut url = "https://railway.com/project/".to_owned();
        url.append(project_id.as_str());
        url.append("/service/");
        url.append(service_id.as_str());
        url.append("?environmentId=");
        url.append(environment_id.as_str());
        url.append("&id=");
        match &self.railway_deployment_id {
            Some(d) => url.append(d.as_str()),
            None => url.append("latest"),
        }
        url.append("#build");
        Some(url)
    }

    /// The origin allowed to make cross-site requests: the public domain over
    /// https, or any origin when no domain is known.
    pub fn cors_origin(&self) -> (r: String)
        ensures
            r@ == match self.railway_public_domain {
                Some(d) => "https://"@ + d@,
                None => "*"@,
            },
    {
        match &self.railway_public_domain {
            Some(domain) => {
                let mut origin = "https://".to_owned();
                origin.append(domain.as_str());
                origin
            },
            None => "*".to_owned(),
        }
    }
}

/// The service's settings.
#[derive(Debug, Clone)]
pub struct Config {
    pub port: u16,
    pub railway: RailwayConfig,
}

impl Config {
    /// The address to listen on: every interface, on the configured port.
    pub fn bind_addr(&self) -> (r: String)
        ensures
            r@ == "0.0.0.0:"@ + decimal_chars(self.port as nat),
    {
        let mut addr = "0.0.0.0:".to_owned();
        append_decimal(&mut addr, self.port as u32);
        addr
    }
}

} // verus!
