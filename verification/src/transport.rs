//! How nodes find each other, and which messages they take from each other.

use vstd::prelude::*;
use vstd::slice::*;
use vstd::string::*;

use crate::bytes;
use crate::bytes::starts_with;
use crate::bytes::str_equal;
use crate::node_map::NodeMap;
use crate::text;
use crate::text::append_number;
use crate::text::is_white_space;
use crate::text::text_chars;

verus! {

broadcast use {group_string_axioms, group_slice_axioms};

/// The version of the messages between nodes.
pub const WIRE_VERSION: u16 = 1;

/// The group that is meant when none is named.
pub const DEFAULT_RAFT_GROUP_ID: &'static str = "rg_default";

/// The largest piece in which a snapshot is sent.
pub const DEFAULT_SNAPSHOT_STREAM_CHUNK_SIZE: usize = 1024 * 1024;

/// The limits of the connections between nodes.
#[derive(Debug, Clone, Copy, PartialEq, Eq, Structural)]
pub struct TonicRaftTransportConfig {
    pub connect_timeout_ms: u64,
    pub rpc_timeout_ms: u64,
    pub max_message_size: usize,
}

impl Default for TonicRaftTransportConfig {
    fn default() -> (config: TonicRaftTransportConfig)
        ensures
            config.connect_timeout_ms == 2000,
            config.rpc_timeout_ms == 5000,
            config.max_message_size == 8 * 1024 * 1024,
    {
        TonicRaftTransportConfig {
            connect_timeout_ms: 2000,
            rpc_timeout_ms: 5000,
            max_message_size: 8 * 1024 * 1024,
        }
    }
}

/// What kind of refusal a request met with.
#[derive(Debug, Clone, Copy, PartialEq, Eq, Structural)]
pub enum StatusCode {
    InvalidArgument,
    NotFound,
    Internal,
}

/// The refusal of a request.
#[derive(Debug, Clone, PartialEq, Eq)]
pub struct TransportError {
    pub code: StatusCode,
    pub message: String,
}

impl View for TransportError {
    type V = (StatusCode, Seq<char>);

    open spec fn view(&self) -> (StatusCode, Seq<char>) {
        (self.code, self.message@)
    }
}

/// Makes a refusal.
pub fn refuse(code: StatusCode, message: String) -> (error: TransportError)
    ensures
        error@ == (code, message@),
{
    TransportError { code, message }
}

/// The size of the pieces in which a snapshot is sent: what a message holds next to
/// its frame, but at least one byte and at most the default.
pub fn snapshot_stream_chunk_size(max_message_size: usize) -> (size: usize)
    ensures
        size == if max_message_size <= 1025 {
            1
        } else if max_message_size - 1024 > DEFAULT_SNAPSHOT_STREAM_CHUNK_SIZE {
            DEFAULT_SNAPSHOT_STREAM_CHUNK_SIZE as int
        } else {
            max_message_size - 1024
        },
        1 <= size <= DEFAULT_SNAPSHOT_STREAM_CHUNK_SIZE,
        size > 1 ==> size + 1024 <= max_message_size,
        1 <= size < DEFAULT_SNAPSHOT_STREAM_CHUNK_SIZE ==> max_message_size <= size + 1024,
{
    let room: usize = max_message_size.saturating_sub(1024);
    if room < 1 {
        1
    } else if room > DEFAULT_SNAPSHOT_STREAM_CHUNK_SIZE {
        DEFAULT_SNAPSHOT_STREAM_CHUNK_SIZE
    } else {
        room
    }
}

/// The message for a message of another version.
pub open spec fn unsupported_wire_message(version: u16) -> Seq<char> {
    "unsupported raft transport wire version "@ + text::number_text(version as nat)
}

/// Whether a message of this version can be read.
pub fn check_wire_version(version: u16) -> (checked: Result<(), String>)
    ensures
        checked is Ok <==> version == WIRE_VERSION,
        checked matches Err(message) ==> message@ == unsupported_wire_message(version),
{
    if version == WIRE_VERSION {
        return Ok(());
    }
    let mut message: String = "unsupported raft transport wire version ".to_owned();
    append_number(&mut message, version as u64);
    Err(message)
}

/// Whether an address names its scheme.
pub open spec fn has_scheme(endpoint: Seq<u8>) -> bool {
    bytes::has_prefix(endpoint, bytes::text("http://")) || bytes::has_prefix(
        endpoint,
        bytes::text("https://"),
    )
}

/// The address with its scheme.
pub open spec fn normalized(endpoint: Seq<char>) -> Seq<char> {
    if has_scheme(vstd::utf8::encode_utf8(endpoint)) {
        endpoint
    } else {
        "http://"@ + endpoint
    }
}

/// The address with its scheme.
pub fn normalize_endpoint(endpoint: &str) -> (address: String)
    ensures
        address@ == normalized(endpoint@),
{
    if starts_with(endpoint.as_bytes(), "http://".as_bytes()) || starts_with(
        endpoint.as_bytes(),
        "https://".as_bytes(),
    ) {
        return endpoint.to_owned();
    }
    let mut address: String = "http://".to_owned();
    address.append(endpoint);
    address
}

/// The addresses of nodes that were registered.
#[derive(Debug, Clone)]
pub struct EndpointRegistry {
    endpoints: NodeMap<String>,
}

/// The message for a node without an address.
pub open spec fn missing_endpoint_message(target: u64) -> Seq<char> {
    "missing endpoint for node "@ + text::number_text(target as nat)
}

impl EndpointRegistry {
    /// Whether the registry is well formed.
    pub closed spec fn wf(&self) -> bool {
        self.endpoints.wf()
    }

    /// The addresses by node.
    pub closed spec fn addresses(&self) -> Map<u64, String> {
        self.endpoints@
    }

    /// The address of a node: the one that its membership names, else the one that
    /// was registered.
    pub open spec fn address_of(&self, target: u64, named: Seq<char>) -> Option<Seq<char>> {
        if named.len() > 0 {
            Some(normalized(named))
        } else if self.addresses().dom().contains(target) {
            Some(self.addresses()[target]@)
        } else {
            None
        }
    }

    /// A registry without addresses.
    pub fn new() -> (registry: EndpointRegistry)
        ensures
            registry.wf(),
            registry.addresses() == Map::<u64, String>::empty(),
    {
        EndpointRegistry { endpoints: NodeMap::new() }
    }

    /// Registers the address of a node, in place of its last one.
    pub fn register_endpoint(&mut self, node_id: u64, endpoint: &str)
        requires
            old(self).wf(),
        ensures
            final(self).wf(),
            final(self).addresses().dom() == old(self).addresses().dom().insert(node_id),
            final(self).addresses()[node_id]@ == normalized(endpoint@),
            forall|node: u64|
                node != node_id && old(self).addresses().dom().contains(node)
                    ==> #[trigger] final(self).addresses()[node] == old(self).addresses()[node],
    {
        self.endpoints.insert(node_id, normalize_endpoint(endpoint));
    }

    /// The address of a node.
    pub fn endpoint_for(&self, target: u64, named: &str) -> (address: Result<String, String>)
        requires
            self.wf(),
        ensures
            match self.address_of(target, named@) {
                Some(found) => address matches Ok(text) && text@ == found,
                None => address matches Err(message) && message@ == missing_endpoint_message(
                    target,
                ),
            },
    {
        if !named.is_empty() {
            return Ok(normalize_endpoint(named));
        }
        match self.endpoints.get(target) {
            Some(address) => Ok(address.clone()),
            None => {
                let mut message: String = "missing endpoint for node ".to_owned();
                append_number(&mut message, target);
                Err(message)
            },
        }
    }
}

/// The message for an error at a node.
pub fn node_error(target: u64, error: &str) -> (message: String)
    ensures
        message@ == "node "@ + text::number_text(target as nat) + ": "@ + error@,
{
    let mut message: String = "node ".to_owned();
    append_number(&mut message, target);
    message.append(": ");
    message.append(error);
    message
}

/// Whether a text names a group: it is not empty, and white space stands neither at
/// its beginning nor at its end.
pub open spec fn is_group_id(group_id: Seq<char>) -> bool {
    group_id.len() > 0 && !text::is_white(group_id[0]) && !text::is_white(group_id.last())
}

/// Whether a text names a group.
pub fn check_group_id(group_id: &str) -> (checked: Result<(), TransportError>)
    ensures
        checked is Ok <==> is_group_id(group_id@),
        checked matches Err(error) ==> error@ == (
            StatusCode::InvalidArgument,
            "raft group_id must not be empty"@,
        ),
{
    let chars = text_chars(group_id);
    if chars.len() > 0 && !is_white_space(chars[0]) && !is_white_space(chars[chars.len() - 1]) {
        return Ok(());
    }
    Err(refuse(StatusCode::InvalidArgument, "raft group_id must not be empty".to_owned()))
}

/// Whether a client may address a group by this text.
pub fn check_client_group_id(group_id: &str) -> (checked: Result<(), String>)
    ensures
        checked is Ok <==> group_id@.len() > 0,
        checked matches Err(message) ==> message@ == "raft group_id must not be empty"@,
{
    if group_id.is_empty() {
        return Err("raft group_id must not be empty".to_owned());
    }
    Ok(())
}

/// The message for a group that a node does not run.
pub open spec fn not_loaded_message(group_id: Seq<char>) -> Seq<char> {
    "raft group "@ + group_id + " is not loaded"@
}

/// Decides whether a message for a group is taken, given whether the node runs it.
pub fn admit_group(group_id: &str, loaded: bool) -> (admitted: Result<(), TransportError>)
    ensures
        !is_group_id(group_id@) ==> (admitted matches Err(error) && error@ == (
            StatusCode::InvalidArgument,
            "raft group_id must not be empty"@,
        )),
        is_group_id(group_id@) && !loaded ==> (admitted matches Err(error) && error@ == (
            StatusCode::NotFound,
            not_loaded_message(group_id@),
        )),
        is_group_id(group_id@) && loaded ==> admitted is Ok,
{
    if let Err(error) = check_group_id(group_id) {
        return Err(error);
    }
    if loaded {
        return Ok(());
    }
    let mut message: String = "raft group ".to_owned();
    message.append(group_id);
    message.append(" is not loaded");
    Err(refuse(StatusCode::NotFound, message))
}

/// The message for a piece of a snapshot that belongs to another group.
pub open spec fn other_group_message(found: Seq<char>, group_id: Seq<char>) -> Seq<char> {
    "snapshot chunk group_id "@ + found + " does not match header group_id "@ + group_id
}

/// Whether a piece of a snapshot belongs to the group whose snapshot is arriving.
pub fn ensure_snapshot_group_id(found: &str, group_id: &str) -> (checked: Result<
    (),
    TransportError,
>)
    ensures
        checked is Ok <==> found@ == group_id@,
        checked matches Err(error) ==> error@ == (
            StatusCode::InvalidArgument,
            other_group_message(found@, group_id@),
        ),
{
    if str_equal(found, group_id) {
        return Ok(());
    }
    let mut message: String = "snapshot chunk group_id ".to_owned();
    message.append(found);
    message.append(" does not match header group_id ");
    message.append(group_id);
    Err(refuse(StatusCode::InvalidArgument, message))
}

/// The text of an error of a client's write that did not reach the group.
pub fn client_write_error_text(error: &str) -> (message: String)
    ensures
        message@ == "client write transport error: "@ + error@,
{
    let mut message: String = "client write transport error: ".to_owned();
    message.append(error);
    message
}

/// The text of an error of a client's barrier that did not reach the group.
pub fn client_barrier_error_text(error: &str) -> (message: String)
    ensures
        message@ == "client barrier transport error: "@ + error@,
{
    let mut message: String = "client barrier transport error: ".to_owned();
    message.append(error);
    message
}

/// An address that has its scheme stays as it is.
pub proof fn law_normalizing_twice_changes_nothing(endpoint: Seq<char>)
    ensures
        normalized(normalized(endpoint)) == normalized(endpoint),
{
    if !has_scheme(vstd::utf8::encode_utf8(endpoint)) {
        let scheme = "http://"@;
        reveal_strlit("http://");
        text::lemma_encode_both(scheme, endpoint);
        let address = vstd::utf8::encode_utf8(scheme + endpoint);
        let prefix = bytes::text("http://");
        assert(address.subrange(0, prefix.len() as int) =~= prefix);
    }
}

} // verus!
