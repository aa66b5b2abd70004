//! Request parameters of the extraction entry points.
use vstd::prelude::*;
use crate::snippet::TargetConfig;

verus! {

/// Parameters of a query-string request.
#[derive(Debug, Clone)]
pub struct QueryParams {
    pub uri: Option<String>,
    pub full: Option<u8>,
    pub elements: Option<u8>,
    pub target: Option<String>,
}

/// Parameters of a posted request.
#[derive(Debug, Clone)]
pub struct PostParams {
    pub uri: Option<String>,
    pub full: Option<bool>,
    pub elements: Option<bool>,
    pub links: Option<bool>,
    pub target: Option<String>,
    pub targets: Option<Vec<String>>,
    pub items: Option<Vec<TargetConfig>>,
    pub raw: Option<bool>,
    pub related: Option<bool>,
    pub keep_media: Option<bool>,
    pub skip: Option<bool>,
}

} // verus!
