//! The typed request and response records exchanged with the storage
//! service, together with their mathematical views.
//!
//! These are plain value records: the pipeline borrows them for the span of
//! one logical call and never retains them.

use vstd::prelude::*;

verus! {

/// A stored record: a key, an opaque value, and a version used for
/// optimistic concurrency. Identity is (store scope, key); the version
/// increases monotonically on successful writes.
#[derive(Debug, Clone, PartialEq)]
pub struct KeyValue {
    pub key: String,
    pub version: u64,
    pub value: Vec<u8>,
}

/// Mathematical view of a [`KeyValue`].
#[verifier::ext_equal]
pub struct KeyValueV {
    pub key: Seq<char>,
    pub version: u64,
    pub value: Seq<u8>,
}

impl View for KeyValue {
    type V = KeyValueV;

    open spec fn view(&self) -> KeyValueV {
        KeyValueV { key: self.key@, version: self.version, value: self.value@ }
    }
}

/// View of an optional record: present records are viewed, absence is kept.
pub open spec fn opt_kv_view(o: Option<KeyValue>) -> Option<KeyValueV> {
    match o {
        Some(kv) => Some(kv@),
        None => None,
    }
}

/// View of an optional string.
pub open spec fn opt_string_view(o: Option<String>) -> Option<Seq<char>> {
    match o {
        Some(s) => Some(s@),
        None => None,
    }
}

/// View of a vector of records.
pub open spec fn kv_seq_view(v: Seq<KeyValue>) -> Seq<KeyValueV> {
    v.map_values(|kv: KeyValue| kv@)
}

/// Asks the service for the record stored under `key`.
#[derive(Debug, Clone, PartialEq)]
pub struct GetObjectRequest {
    pub store_id: String,
    pub key: String,
}

/// Mathematical view of a [`GetObjectRequest`].
#[verifier::ext_equal]
pub struct GetObjectRequestV {
    pub store_id: Seq<char>,
    pub key: Seq<char>,
}

impl View for GetObjectRequest {
    type V = GetObjectRequestV;

    open spec fn view(&self) -> GetObjectRequestV {
        GetObjectRequestV { store_id: self.store_id@, key: self.key@ }
    }
}

/// A successful get response. The service contract requires `value` to be
/// present; the pipeline surfaces an absent value as a protocol violation,
/// never as success.
#[derive(Debug, Clone, PartialEq)]
pub struct GetObjectResponse {
    pub value: Option<KeyValue>,
}

/// Mathematical view of a [`GetObjectResponse`].
#[verifier::ext_equal]
pub struct GetObjectResponseV {
    pub value: Option<KeyValueV>,
}

impl View for GetObjectResponse {
    type V = GetObjectResponseV;

    open spec fn view(&self) -> GetObjectResponseV {
        GetObjectResponseV { value: opt_kv_view(self.value) }
    }
}

/// Writes `transaction_items` and deletes `delete_items` as a single
/// all-or-nothing transaction.
#[derive(Debug, Clone, PartialEq)]
pub struct PutObjectRequest {
    pub store_id: String,
    pub transaction_items: Vec<KeyValue>,
    pub delete_items: Vec<KeyValue>,
}

/// Mathematical view of a [`PutObjectRequest`].
#[verifier::ext_equal]
pub struct PutObjectRequestV {
    pub store_id: Seq<char>,
    pub transaction_items: Seq<KeyValueV>,
    pub delete_items: Seq<KeyValueV>,
}

impl View for PutObjectRequest {
    type V = PutObjectRequestV;

    open spec fn view(&self) -> PutObjectRequestV {
        PutObjectRequestV {
            store_id: self.store_id@,
            transaction_items: kv_seq_view(self.transaction_items@),
            delete_items: kv_seq_view(self.delete_items@),
        }
    }
}

/// A successful put response carries no payload beyond success.
#[derive(Debug, Clone, PartialEq)]
pub struct PutObjectResponse {}

/// Deletes one record identified by key and expected version.
#[derive(Debug, Clone, PartialEq)]
pub struct DeleteObjectRequest {
    pub store_id: String,
    pub key_value: Option<KeyValue>,
}

/// Mathematical view of a [`DeleteObjectRequest`].
#[verifier::ext_equal]
pub struct DeleteObjectRequestV {
    pub store_id: Seq<char>,
    pub key_value: Option<KeyValueV>,
}

impl View for DeleteObjectRequest {
    type V = DeleteObjectRequestV;

    open spec fn view(&self) -> DeleteObjectRequestV {
        DeleteObjectRequestV {
            store_id: self.store_id@,
            key_value: opt_kv_view(self.key_value),
        }
    }
}

/// A successful delete response carries no payload beyond success.
#[derive(Debug, Clone, PartialEq)]
pub struct DeleteObjectResponse {}

/// Lists keys and versions, optionally filtered by a key prefix, one page at
/// a time. `page_token` continues a previous listing.
#[derive(Debug, Clone, PartialEq)]
pub struct ListKeyVersionsRequest {
    pub store_id: String,
    pub key_prefix: Option<String>,
    pub page_size: Option<u32>,
    pub page_token: Option<String>,
}

/// Mathematical view of a [`ListKeyVersionsRequest`].
#[verifier::ext_equal]
pub struct ListKeyVersionsRequestV {
    pub store_id: Seq<char>,
    pub key_prefix: Option<Seq<char>>,
    pub page_size: Option<u32>,
    pub page_token: Option<Seq<char>>,
}

impl View for ListKeyVersionsRequest {
    type V = ListKeyVersionsRequestV;

    open spec fn view(&self) -> ListKeyVersionsRequestV {
        ListKeyVersionsRequestV {
            store_id: self.store_id@,
            key_prefix: opt_string_view(self.key_prefix),
            page_size: self.page_size,
            page_token: opt_string_view(self.page_token),
        }
    }
}

/// One page of (key, version) pairs. An absent `next_page_token` signals
/// that the listing is exhausted; it is not an error.
#[derive(Debug, Clone, PartialEq)]
pub struct ListKeyVersionsResponse {
    pub key_versions: Vec<KeyValue>,
    pub next_page_token: Option<String>,
}

/// Mathematical view of a [`ListKeyVersionsResponse`].
#[verifier::ext_equal]
pub struct ListKeyVersionsResponseV {
    pub key_versions: Seq<KeyValueV>,
    pub next_page_token: Option<Seq<char>>,
}

impl View for ListKeyVersionsResponse {
    type V = ListKeyVersionsResponseV;

    open spec fn view(&self) -> ListKeyVersionsResponseV {
        ListKeyVersionsResponseV {
            key_versions: kv_seq_view(self.key_versions@),
            next_page_token: opt_string_view(self.next_page_token),
        }
    }
}

} // verus!
