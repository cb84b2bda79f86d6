//! Requests and responses about the team itself: access logs, billing and
//! integration logs.

use vstd::prelude::*;
use std::collections::HashMap;
use crate::id::{AppId, UserId};
use crate::timestamp::Timestamp;

verus! {

/// A page marker in a paged response.
#[derive(Clone, Debug)]
pub struct Paging {
    pub count: Option<u32>,
    pub page: Option<u32>,
    pub pages: Option<u32>,
    pub total: Option<u32>,
}

/// The team as the service describes it.
#[derive(Clone, Debug)]
pub struct Team {
    pub id: Option<String>,
    pub name: Option<String>,
    pub domain: Option<String>,
}

/// Gets the access logs for the current team.
#[derive(Clone, Debug)]
pub struct AccessLogsRequest {
    /// Number of items to return per page.
    pub count: Option<u32>,
    /// Page number of results to return.
    pub page: Option<u32>,
    /// End of time range of logs to include in results (inclusive).
    pub before: Option<u32>,
}

#[derive(Clone, Debug)]
pub struct AccessLogsResponse {
    pub ok: bool,
    pub logins: Option<Vec<AccessLogsResponseLogin>>,
    pub paging: Option<Paging>,
}

#[derive(Clone, Debug)]
pub struct AccessLogsResponseLogin {
    pub count: Option<u32>,
    pub country: Option<String>,
    pub date_first: Option<Timestamp>,
    pub date_last: Option<Timestamp>,
    pub ip: Option<String>,
    pub isp: Option<String>,
    pub region: Option<String>,
    pub user_agent: Option<String>,
    pub user_id: Option<String>,
    pub username: Option<String>,
}

/// Gets billable users information for the current team.
#[derive(Clone, Debug)]
pub struct BillableInfoRequest {
    /// A user to retrieve the billable information for. Defaults to all users.
    pub user: Option<UserId>,
}

#[derive(Clone, Debug)]
pub struct BillableInfoResponse {
    pub ok: bool,
    pub billable_info: HashMap<String, bool>,
}

/// Gets information about the current team.
#[derive(Clone, Debug)]
pub struct InfoResponse {
    pub ok: bool,
    pub team: Option<Team>,
}

/// Gets the integration logs for the current team.
#[derive(Clone, Debug)]
pub struct IntegrationLogsRequest {
    /// Filter logs to this service. Defaults to all logs.
    pub service_id: Option<String>,
    /// Filter logs to this app. Defaults to all logs.
    pub app_id: Option<AppId>,
    /// Filter logs generated by this user's actions. Defaults to all logs.
    pub user: Option<UserId>,
    /// Filter logs with this change type. Defaults to all logs.
    pub change_type: Option<String>,
    /// Number of items to return per page.
    pub count: Option<u32>,
    /// Page number of results to return.
    pub page: Option<u32>,
}

#[derive(Clone, Debug)]
pub struct IntegrationLogsResponse {
    pub ok: bool,
    pub logs: Option<Vec<IntegrationLogsResponseLog>>,
    pub paging: Option<Paging>,
}

#[derive(Clone, Debug)]
pub struct IntegrationLogsResponseLog {
    pub app_id: Option<String>,
    pub app_type: Option<String>,
    pub change_type: Option<String>,
    pub channel: Option<String>,
    pub date: Option<String>,
    pub reason: Option<String>,
    pub scope: Option<String>,
    pub service_id: Option<String>,
    pub service_type: Option<String>,
    pub user_id: Option<String>,
    pub user_name: Option<String>,
}

} // verus!
