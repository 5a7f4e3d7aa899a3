//! The description of an API query and of its response.
use vstd::prelude::*;

verus! {

pub struct PostDataType {
    pub description: String,
    pub data_name: String,
    pub data_type: String,
}

/// Response schema
pub struct PostResponseSchema {
    pub name: String,
    pub schemas: Vec<PostResponseDataSchema>,
    pub data: Vec<PostDataType>,
}

pub struct PostResponseDataSchema {
    pub is_array: bool,
    pub schema: PostResponseSchema,
}

pub struct PostResponseDataType {
    pub is_array: bool,
    pub response_type: PostDataType,
}

pub struct PostApiQuery {
    pub api_url: String,
    pub version: String,
    pub paths: Vec<PostDataType>,
    pub queries: Option<Vec<PostDataType>>,
    pub headers: Option<Vec<PostDataType>>,
    pub response: Vec<PostResponseSchema>,
    pub description: String,
    pub reference_url: String,
}

} // verus!
