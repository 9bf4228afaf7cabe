//! The wire protocol: type-tagged, length-prefixed frames, and the
//! decisions behind each request's response.
//!
//! A frame is one message unit: a message-type byte, a 4-byte big-endian
//! payload length, then the payload. Reading, writing and payload
//! serialization live in the embedding program; this module frames bytes
//! and decides responses.

use vstd::prelude::*;
use vstd::string::*;
use crate::item::{Item, ItemV, ProviderInfo, items_view};
use crate::manager::{
    ProviderManager, activate_post, answer_item_ok, ranked_merge, spec_find_provider,
    spec_selected_total,
};
use crate::provider::{LaunchPlan, Provider};
use crate::rank::sorted_by_score_desc;

verus! {

/// The protocol's message types, in wire order: the query pair, the
/// activation pair, then the provider-listing pair.
#[derive(Clone, Copy, Debug, PartialEq, Eq, Structural)]
pub enum MessageType {
    Query,
    QueryResponse,
    Activate,
    ActivateResponse,
    ListProviders,
    ListProvidersResponse,
}

impl MessageType {
    /// The byte that tags a frame of this type.
    pub open spec fn spec_code(self) -> u8 {
        match self {
            MessageType::Query => 1u8,
            MessageType::QueryResponse => 2u8,
            MessageType::Activate => 3u8,
            MessageType::ActivateResponse => 4u8,
            MessageType::ListProviders => 5u8,
            MessageType::ListProvidersResponse => 6u8,
        }
    }

    pub fn code(self) -> (r: u8)
        ensures
            r == self.spec_code(),
    {
        match self {
            MessageType::Query => 1,
            MessageType::QueryResponse => 2,
            MessageType::Activate => 3,
            MessageType::ActivateResponse => 4,
            MessageType::ListProviders => 5,
            MessageType::ListProvidersResponse => 6,
        }
    }

    /// The message type a tag byte names, if any.
    pub open spec fn spec_from_code(code: u8) -> Option<MessageType> {
        if code == 1 {
            Option::Some(MessageType::Query)
        } else if code == 2 {
            Option::Some(MessageType::QueryResponse)
        } else if code == 3 {
            Option::Some(MessageType::Activate)
        } else if code == 4 {
            Option::Some(MessageType::ActivateResponse)
        } else if code == 5 {
            Option::Some(MessageType::ListProviders)
        } else if code == 6 {
            Option::Some(MessageType::ListProvidersResponse)
        } else {
            Option::None
        }
    }

    /// Decodes a tag byte; an unknown byte decodes to nothing.
    pub fn from_code(code: u8) -> (r: Option<MessageType>)
        ensures
            r == MessageType::spec_from_code(code),
    {
        match code {
            1 => Some(MessageType::Query),
            2 => Some(MessageType::QueryResponse),
            3 => Some(MessageType::Activate),
            4 => Some(MessageType::ActivateResponse),
            5 => Some(MessageType::ListProviders),
            6 => Some(MessageType::ListProvidersResponse),
            _ => None,
        }
    }
}

/// Tag codes decode back to the type they tag, and decoded types encode
/// back to their byte.
pub proof fn lemma_message_type_codes()
    ensures
        forall|t: MessageType| MessageType::spec_from_code(#[trigger] t.spec_code())
            == Option::Some(t),
        forall|code: u8|
            (#[trigger] MessageType::spec_from_code(code)) is Some
                ==> MessageType::spec_from_code(code)->0.spec_code() == code,
{
    assert forall|t: MessageType| MessageType::spec_from_code(#[trigger] t.spec_code())
        == Option::Some(t) by {
        match t {
            MessageType::Query => {},
            MessageType::QueryResponse => {},
            MessageType::Activate => {},
            MessageType::ActivateResponse => {},
            MessageType::ListProviders => {},
            MessageType::ListProvidersResponse => {},
        }
    }
}

/// A 32-bit length in big-endian byte order.
pub open spec fn spec_be32(x: u32) -> Seq<u8> {
    seq![(x >> 24) as u8, (x >> 16) as u8, (x >> 8) as u8, x as u8]
}

/// The value four big-endian bytes carry.
pub open spec fn spec_u32_from_be(b0: u8, b1: u8, b2: u8, b3: u8) -> u32 {
    (b0 as u32 * 0x1000000 + b1 as u32 * 0x10000 + b2 as u32 * 0x100 + b3 as u32) as u32
}

/// Encoding a length and reading it back round-trips.
pub proof fn lemma_be32_round_trip(x: u32)
    ensures
        spec_u32_from_be(
            spec_be32(x)[0],
            spec_be32(x)[1],
            spec_be32(x)[2],
            spec_be32(x)[3],
        ) == x,
{
    assert((((x >> 24) as u8) as u32 * 0x1000000 + (((x >> 16) as u8) as u32) * 0x10000 + (((x
        >> 8) as u8) as u32) * 0x100 + ((x as u8) as u32)) as u32 == x) by (bit_vector);
}

/// Builds one frame: the type byte, the payload length in four big-endian
/// bytes, then the payload.
pub fn encode_frame(msg_type: MessageType, payload: &Vec<u8>) -> (r: Vec<u8>)
    requires
        payload@.len() <= u32::MAX,
    ensures
        r@ == seq![msg_type.spec_code()] + spec_be32(payload@.len() as u32) + payload@,
{
    let mut r: Vec<u8> = Vec::new();
    r.push(msg_type.code());
    let len = payload.len() as u32;
    r.push((len >> 24) as u8);
    r.push((len >> 16) as u8);
    r.push((len >> 8) as u8);
    r.push(len as u8);
    r.extend_from_slice(payload.as_slice());
    assert(r@ =~= seq![msg_type.spec_code()] + spec_be32(payload@.len() as u32) + payload@);
    r
}

/// Splits a frame header into the type byte and the payload length.
pub fn parse_header(header: &Vec<u8>) -> (r: (u8, u32))
    requires
        header@.len() == 5,
    ensures
        r.0 == header@[0],
        r.1 == spec_u32_from_be(header@[1], header@[2], header@[3], header@[4]),
{
    let b0 = header[1] as u32;
    let b1 = header[2] as u32;
    let b2 = header[3] as u32;
    let b3 = header[4] as u32;
    let len = b0 * 0x1000000 + b1 * 0x10000 + b2 * 0x100 + b3;
    (header[0], len)
}

/// A query as decoded from a request payload.
#[derive(Debug)]
pub struct QueryRequest {
    pub query: String,
    /// Requested cap; zero or negative asks for the server's default.
    pub max_results: i32,
    /// Explicit provider names; empty means prefix routing.
    pub providers: Vec<String>,
    /// Reserved.
    pub exact: bool,
}

/// The answer to a query.
#[derive(Debug)]
pub struct QueryResponse {
    pub query: String,
    /// Fresh unique id of this response.
    pub qid: String,
    pub items: Vec<Item>,
}

/// The outcome of an activation request.
#[derive(Debug)]
pub struct ActivateResponse {
    pub success: bool,
    pub error: String,
}

/// The answer to a provider-listing request.
#[derive(Debug)]
pub struct ListProvidersResponse {
    pub providers: Vec<ProviderInfo>,
}

/// The cap a query runs under: the requested one when positive, else the
/// server's default.
pub open spec fn spec_effective_max(requested: i32, default_max: usize) -> int {
    if requested > 0 {
        requested as int
    } else {
        default_max as int
    }
}

/// Answers a query request: dispatches through the manager under the
/// effective cap and wraps the ranked items with a fresh response id.
pub fn handle_query(manager: &ProviderManager, request: QueryRequest, default_max: usize) -> (r:
    QueryResponse)
    ensures
        r.query@ == request.query@,
        r.qid@.len() == 36,
        r.items@.len() == ({
            let max = spec_effective_max(request.max_results, default_max);
            let total = spec_selected_total(
                manager.spec_providers(),
                request.query@,
                request.providers.deep_view(),
                max,
            );
            if total <= max {
                total
            } else {
                max
            }
        }),
        sorted_by_score_desc(items_view(r.items@)),
        forall|k: int|
            0 <= k < r.items@.len() ==> answer_item_ok(
                #[trigger] items_view(r.items@)[k],
                manager.spec_providers(),
                request.query@,
                request.providers.deep_view(),
            ),
        ranked_merge(
            items_view(r.items@),
            manager.spec_providers(),
            request.query@,
            request.providers.deep_view(),
            spec_effective_max(request.max_results, default_max),
        ),
{
    let max_results: usize = if request.max_results > 0 {
        request.max_results as usize
    } else {
        default_max
    };
    let items = manager.query(request.query.as_str(), max_results, &request.providers);
    QueryResponse { query: request.query, qid: crate::item::fresh_id(), items }
}

/// What the server does with an activation request: answer at once, or
/// carry out a launch plan and then answer.
#[derive(Debug)]
pub enum ActivateStep {
    /// Answer the client without launching anything.
    Respond(ActivateResponse),
    /// Launch this, then answer with the outcome.
    Launch(LaunchPlan),
}

/// Decides an activation request. A request without an item is answered
/// `Missing item`; an unknown provider is a reported failure; a provider
/// that declines gives its error text; otherwise the provider's launch
/// plan is handed back for execution.
pub fn handle_activate(manager: &ProviderManager, item: Option<Item>, action_id: String) -> (r:
    ActivateStep)
    ensures
        item is None ==> (r matches ActivateStep::Respond(resp) && resp.success == false
            && resp.error@ == "Missing item"@),
        item is Some ==> ({
            let f = spec_find_provider(manager.spec_providers(), item->0@.provider);
            &&& (f < 0 ==> (r matches ActivateStep::Respond(resp) && resp.success == false
                && resp.error@ == "Unknown provider: "@ + item->0@.provider))
            &&& (f >= 0 ==> match r {
                ActivateStep::Launch(plan) => activate_post(
                    manager.spec_providers()[f],
                    item->0@,
                    Result::<LaunchPlan, String>::Ok(plan),
                ),
                ActivateStep::Respond(resp) => resp.success == false && activate_post(
                    manager.spec_providers()[f],
                    item->0@,
                    Result::<LaunchPlan, String>::Err(resp.error),
                ),
            })
        }),
{
    let item = match item {
        Some(it) => it,
        None => {
            return ActivateStep::Respond(
                ActivateResponse { success: false, error: String::from_str("Missing item") },
            );
        },
    };
    let action = if action_id.as_str().is_empty() {
        None
    } else {
        Some(action_id.as_str())
    };
    match manager.activate(&item, action) {
        Ok(plan) => ActivateStep::Launch(plan),
        Err(e) => ActivateStep::Respond(ActivateResponse { success: false, error: e }),
    }
}

/// Answers a provider-listing request with every registered provider's
/// descriptor, in registration order.
pub fn handle_list_providers(manager: &ProviderManager) -> (r: ListProvidersResponse)
    ensures
        r.providers@.len() == manager.spec_providers().len(),
        forall|i: int|
            0 <= i < r.providers@.len() ==> (#[trigger] r.providers@[i]@).name
                == manager.spec_providers()[i].spec_name() && r.providers@[i]@.description
                == manager.spec_providers()[i].spec_description() && r.providers@[i]@.prefix
                == manager.spec_providers()[i].spec_prefix() && r.providers@[i]@.enabled
                == manager.spec_providers()[i].spec_enabled(),
{
    ListProvidersResponse { providers: manager.list_providers() }
}

} // verus!
