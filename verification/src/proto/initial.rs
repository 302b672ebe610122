//! The messages that set up a session.

use vstd::prelude::*;

use super::environment;
use super::environment::EnvironmentVariables;
use super::message;
use super::message::{MessageSpec, ProtoMessage};
use super::wire;
use super::wire::{ProtoError, WireField};

verus! {

/// The answer to an initial payload: an error, or none.
#[derive(Debug, Clone)]
pub struct InitialResponse {
    pub error: Option<String>,
}

pub struct InitialResponseView {
    pub error: Option<Seq<char>>,
}

impl View for InitialResponse {
    type V = InitialResponseView;

    open spec fn view(&self) -> InitialResponseView {
        InitialResponseView {
            error: message::opt_view(self.error),
        }
    }
}

impl Default for InitialResponse {
    fn default() -> (r: Self)
        ensures
            r@ == Self::empty(),
    {
        InitialResponse { error: None }
    }
}

impl MessageSpec for InitialResponse {
    open spec fn empty() -> InitialResponseView {
        InitialResponseView { error: None }
    }

    open spec fn fields(v: InitialResponseView) -> Seq<WireField> {
        message::optional_string(1, v.error)
    }

    open spec fn apply(v: InitialResponseView, f: WireField) -> Result<InitialResponseView, ProtoError> {
        if f.number == 1 {
            Ok(InitialResponseView { error: wire::text_of(f) })
        } else {
            Ok(v)
        }
    }

    open spec fn valid(v: InitialResponseView) -> bool {
        true
    }

    open spec fn delivered(v: InitialResponseView) -> InitialResponseView {
        v
    }
}

impl ProtoMessage for InitialResponse {
    fn encode(&self) -> Vec<u8> {
        let mut out: Vec<u8> = Vec::new();
        message::put_optional_string(&mut out, 1, &self.error);
        proof {
            let a = message::optional_string(1, self@.error);
            assert(out@ =~= wire::encode_fields(a));
        }
        out
    }

    fn decode(bytes: &[u8]) -> (r: Result<Self, ProtoError>) {
        let mut msg = InitialResponse::default();
        let fields = match wire::parse_message(bytes) {
            Ok(fields) => fields,
            Err(e) => return Err(e),
        };
        let ghost all = wire::views(fields@);
        let mut i: usize = 0;
        while i < fields.len()
            invariant
                i <= fields@.len(),
                all == wire::views(fields@),
                message::collect::<Self>(all.take(i as int)) == Ok::<InitialResponseView, ProtoError>(
                    msg@,
                ),
            decreases fields@.len() - i,
        {
            let f = &fields[i];
            proof {
                message::lemma_collect_next::<Self>(all, i as int);
            }
            if f.number == 1 {
                msg.error = wire::field_as_string(f);
            }
            i += 1;
        }
        assert(all.take(i as int) =~= all);
        Ok(msg)
    }

    proof fn round_trip(v: InitialResponseView) {
        let a = message::optional_string(1, v.error);
        if let Some(x) = v.error {
            wire::field_values(1, x, Seq::empty(), 0, false);
        }
        message::lemma_fields_back(a);
        message::lemma_collect_optional::<Self>(Seq::empty(), a);
        assert(Seq::<WireField>::empty() + a =~= a);
    }
}

/// One end of a forwarded port.
#[derive(Debug, Clone)]
pub struct SocketEndpoint {
    pub name: Option<String>,
    pub port: Option<i32>,
}

pub struct SocketEndpointView {
    pub name: Option<Seq<char>>,
    pub port: Option<i32>,
}

impl View for SocketEndpoint {
    type V = SocketEndpointView;

    open spec fn view(&self) -> SocketEndpointView {
        SocketEndpointView {
            name: message::opt_view(self.name),
            port: self.port,
        }
    }
}

impl Default for SocketEndpoint {
    fn default() -> (r: Self)
        ensures
            r@ == Self::empty(),
    {
        SocketEndpoint { name: None, port: None }
    }
}

impl MessageSpec for SocketEndpoint {
    open spec fn empty() -> SocketEndpointView {
        SocketEndpointView { name: None, port: None }
    }

    open spec fn fields(v: SocketEndpointView) -> Seq<WireField> {
        message::optional_string(1, v.name)
            + message::optional_int32(2, v.port)
    }

    open spec fn apply(v: SocketEndpointView, f: WireField) -> Result<SocketEndpointView, ProtoError> {
        if f.number == 1 {
            Ok(SocketEndpointView { name: wire::text_of(f), ..v })
        } else if f.number == 2 {
            Ok(SocketEndpointView { port: wire::int32_of(f), ..v })
        } else {
            Ok(v)
        }
    }

    open spec fn valid(v: SocketEndpointView) -> bool {
        true
    }

    open spec fn delivered(v: SocketEndpointView) -> SocketEndpointView {
        v
    }
}

impl ProtoMessage for SocketEndpoint {
    fn encode(&self) -> Vec<u8> {
        let mut out: Vec<u8> = Vec::new();
        message::put_optional_string(&mut out, 1, &self.name);
        message::put_optional_int32(&mut out, 2, self.port);
        proof {
            let a = message::optional_string(1, self@.name);
            let b = message::optional_int32(2, self@.port);
            message::lemma_encode_concat(a, b);
            assert(out@ =~= wire::encode_fields(a)
                + wire::encode_fields(b));
        }
        out
    }

    fn decode(bytes: &[u8]) -> (r: Result<Self, ProtoError>) {
        let mut msg = SocketEndpoint::default();
        let fields = match wire::parse_message(bytes) {
            Ok(fields) => fields,
            Err(e) => return Err(e),
        };
        let ghost all = wire::views(fields@);
        let mut i: usize = 0;
        while i < fields.len()
            invariant
                i <= fields@.len(),
                all == wire::views(fields@),
                message::collect::<Self>(all.take(i as int)) == Ok::<SocketEndpointView, ProtoError>(
                    msg@,
                ),
            decreases fields@.len() - i,
        {
            let f = &fields[i];
            proof {
                message::lemma_collect_next::<Self>(all, i as int);
            }
            match f.number {
                1 => msg.name = wire::field_as_string(f),
                2 => msg.port = wire::field_as_int32(f),
                _ => {},
            }
            i += 1;
        }
        assert(all.take(i as int) =~= all);
        Ok(msg)
    }

    proof fn round_trip(v: SocketEndpointView) {
        let a = message::optional_string(1, v.name);
        let b = message::optional_int32(2, v.port);
        if let Some(x) = v.name {
            wire::field_values(1, x, Seq::empty(), 0, false);
        }
        if let Some(x) = v.port {
            wire::field_values(2, Seq::empty(), Seq::empty(), x, false);
        }
        message::lemma_fields_back(a + b);
        message::lemma_collect_optional::<Self>(Seq::empty(), a);
        assert(Seq::<WireField>::empty() + a =~= a);
        message::lemma_collect_optional::<Self>(a, b);
    }
}

/// An entry of a map from strings to strings.
#[derive(Debug, Clone)]
pub struct MapEntry {
    pub key: Option<String>,
    pub value: Option<String>,
}

pub struct MapEntryView {
    pub key: Option<Seq<char>>,
    pub value: Option<Seq<char>>,
}

impl View for MapEntry {
    type V = MapEntryView;

    open spec fn view(&self) -> MapEntryView {
        MapEntryView {
            key: message::opt_view(self.key),
            value: message::opt_view(self.value),
        }
    }
}

impl Default for MapEntry {
    fn default() -> (r: Self)
        ensures
            r@ == Self::empty(),
    {
        MapEntry { key: None, value: None }
    }
}

impl MessageSpec for MapEntry {
    open spec fn empty() -> MapEntryView {
        MapEntryView { key: None, value: None }
    }

    open spec fn fields(v: MapEntryView) -> Seq<WireField> {
        message::optional_string(1, v.key)
            + message::optional_string(2, v.value)
    }

    open spec fn apply(v: MapEntryView, f: WireField) -> Result<MapEntryView, ProtoError> {
        if f.number == 1 {
            Ok(MapEntryView { key: wire::text_of(f), ..v })
        } else if f.number == 2 {
            Ok(MapEntryView { value: wire::text_of(f), ..v })
        } else {
            Ok(v)
        }
    }

    open spec fn valid(v: MapEntryView) -> bool {
        true
    }

    open spec fn delivered(v: MapEntryView) -> MapEntryView {
        v
    }
}

impl ProtoMessage for MapEntry {
    fn encode(&self) -> Vec<u8> {
        let mut out: Vec<u8> = Vec::new();
        message::put_optional_string(&mut out, 1, &self.key);
        message::put_optional_string(&mut out, 2, &self.value);
        proof {
            let a = message::optional_string(1, self@.key);
            let b = message::optional_string(2, self@.value);
            message::lemma_encode_concat(a, b);
            assert(out@ =~= wire::encode_fields(a)
                + wire::encode_fields(b));
        }
        out
    }

    fn decode(bytes: &[u8]) -> (r: Result<Self, ProtoError>) {
        let mut msg = MapEntry::default();
        let fields = match wire::parse_message(bytes) {
            Ok(fields) => fields,
            Err(e) => return Err(e),
        };
        let ghost all = wire::views(fields@);
        let mut i: usize = 0;
        while i < fields.len()
            invariant
                i <= fields@.len(),
                all == wire::views(fields@),
                message::collect::<Self>(all.take(i as int)) == Ok::<MapEntryView, ProtoError>(
                    msg@,
                ),
            decreases fields@.len() - i,
        {
            let f = &fields[i];
            proof {
                message::lemma_collect_next::<Self>(all, i as int);
            }
            match f.number {
                1 => msg.key = wire::field_as_string(f),
                2 => msg.value = wire::field_as_string(f),
                _ => {},
            }
            i += 1;
        }
        assert(all.take(i as int) =~= all);
        Ok(msg)
    }

    proof fn round_trip(v: MapEntryView) {
        let a = message::optional_string(1, v.key);
        let b = message::optional_string(2, v.value);
        if let Some(x) = v.key {
            wire::field_values(1, x, Seq::empty(), 0, false);
        }
        if let Some(x) = v.value {
            wire::field_values(2, x, Seq::empty(), 0, false);
        }
        message::lemma_fields_back(a + b);
        message::lemma_collect_optional::<Self>(Seq::empty(), a);
        assert(Seq::<WireField>::empty() + a =~= a);
        message::lemma_collect_optional::<Self>(a, b);
    }
}

/// The bytes of an optional endpoint.
pub open spec fn endpoint_bytes(o: Option<SocketEndpointView>) -> Option<Seq<u8>> {
    match o {
        Some(e) => Some(message::encoding::<SocketEndpoint>(e)),
        None => None,
    }
}

/// A port to forward.
#[derive(Debug, Clone)]
pub struct PortForwardSourceRequest {
    pub source: Option<SocketEndpoint>,
    pub destination: Option<SocketEndpoint>,
    pub environment_variable: Option<String>,
}

pub struct PortForwardSourceRequestView {
    pub source: Option<SocketEndpointView>,
    pub destination: Option<SocketEndpointView>,
    pub environment_variable: Option<Seq<char>>,
}

impl View for PortForwardSourceRequest {
    type V = PortForwardSourceRequestView;

    open spec fn view(&self) -> PortForwardSourceRequestView {
        PortForwardSourceRequestView {
            source: message::opt_view(self.source),
            destination: message::opt_view(self.destination),
            environment_variable: message::opt_view(self.environment_variable),
        }
    }
}

impl Default for PortForwardSourceRequest {
    fn default() -> (r: Self)
        ensures
            r@ == Self::empty(),
    {
        PortForwardSourceRequest { source: None, destination: None, environment_variable: None }
    }
}

impl MessageSpec for PortForwardSourceRequest {
    open spec fn empty() -> PortForwardSourceRequestView {
        PortForwardSourceRequestView { source: None, destination: None, environment_variable: None }
    }

    open spec fn fields(v: PortForwardSourceRequestView) -> Seq<WireField> {
        message::optional_bytes(1, endpoint_bytes(v.source)) + message::optional_bytes(
            2,
            endpoint_bytes(v.destination),
        ) + message::optional_string(3, v.environment_variable)
    }

    open spec fn apply(v: PortForwardSourceRequestView, f: WireField) -> Result<
        PortForwardSourceRequestView,
        ProtoError,
    > {
        if f.number == 1 {
            match wire::bytes_of(f) {
                None => Ok(v),
                Some(b) => match message::decoding::<SocketEndpoint>(b) {
                    Ok(e) => Ok(PortForwardSourceRequestView { source: Some(e), ..v }),
                    Err(e) => Err(e),
                },
            }
        } else if f.number == 2 {
            match wire::bytes_of(f) {
                None => Ok(v),
                Some(b) => match message::decoding::<SocketEndpoint>(b) {
                    Ok(e) => Ok(PortForwardSourceRequestView { destination: Some(e), ..v }),
                    Err(e) => Err(e),
                },
            }
        } else if f.number == 3 {
            Ok(PortForwardSourceRequestView { environment_variable: wire::text_of(f), ..v })
        } else {
            Ok(v)
        }
    }

    open spec fn valid(v: PortForwardSourceRequestView) -> bool {
        true
    }

    open spec fn delivered(v: PortForwardSourceRequestView) -> PortForwardSourceRequestView {
        v
    }
}

fn put_optional_endpoint(out: &mut Vec<u8>, field: u32, e: &Option<SocketEndpoint>)
    ensures
        final(out)@ == old(out)@ + wire::encode_fields(
            message::optional_bytes(field, endpoint_bytes(message::opt_view(*e))),
        ),
{
    if let Some(e) = e {
        proof {
            message::lemma_encode_one(
                wire::bytes_field(field, message::encoding::<SocketEndpoint>(e@)),
            );
        }
        wire::write_embedded(out, field, e.encode().as_slice());
    } else {
        assert(out@ =~= out@ + Seq::<u8>::empty());
    }
}

impl ProtoMessage for PortForwardSourceRequest {
    fn encode(&self) -> Vec<u8> {
        let mut out: Vec<u8> = Vec::new();
        put_optional_endpoint(&mut out, 1, &self.source);
        put_optional_endpoint(&mut out, 2, &self.destination);
        message::put_optional_string(&mut out, 3, &self.environment_variable);
        proof {
            let a = message::optional_bytes(1, endpoint_bytes(self@.source));
            let b = message::optional_bytes(2, endpoint_bytes(self@.destination));
            let c = message::optional_string(3, self@.environment_variable);
            message::lemma_encode_concat(a, b);
            message::lemma_encode_concat(a + b, c);
            assert(out@ =~= wire::encode_fields(a) + wire::encode_fields(b) + wire::encode_fields(
                c,
            ));
        }
        out
    }

    fn decode(bytes: &[u8]) -> (r: Result<Self, ProtoError>) {
        let mut msg = PortForwardSourceRequest::default();
        let fields = match wire::parse_message(bytes) {
            Ok(fields) => fields,
            Err(e) => return Err(e),
        };
        let ghost all = wire::views(fields@);
        let mut i: usize = 0;
        while i < fields.len()
            invariant
                i <= fields@.len(),
                all == wire::views(fields@),
                wire::fields_of(bytes@) == Ok::<Seq<WireField>, ProtoError>(all),
                message::collect::<Self>(all.take(i as int)) == Ok::<
                    PortForwardSourceRequestView,
                    ProtoError,
                >(msg@),
            decreases fields@.len() - i,
        {
            let f = &fields[i];
            proof {
                message::lemma_collect_next::<Self>(all, i as int);
            }
            match f.number {
                1 => {
                    if let Some(b) = wire::field_as_bytes(f) {
                        match SocketEndpoint::decode(b.as_slice()) {
                            Ok(e) => msg.source = Some(e),
                            Err(e) => {
                                proof {
                                    message::lemma_collect_error::<Self>(all, i + 1);
                                }
                                return Err(e);
                            },
                        }
                    }
                },
                2 => {
                    if let Some(b) = wire::field_as_bytes(f) {
                        match SocketEndpoint::decode(b.as_slice()) {
                            Ok(e) => msg.destination = Some(e),
                            Err(e) => {
                                proof {
                                    message::lemma_collect_error::<Self>(all, i + 1);
                                }
                                return Err(e);
                            },
                        }
                    }
                },
                3 => msg.environment_variable = wire::field_as_string(f),
                _ => {},
            }
            i += 1;
        }
        assert(all.take(i as int) =~= all);
        Ok(msg)
    }

    proof fn round_trip(v: PortForwardSourceRequestView) {
        let a = message::optional_bytes(1, endpoint_bytes(v.source));
        let b = message::optional_bytes(2, endpoint_bytes(v.destination));
        let c = message::optional_string(3, v.environment_variable);
        let all = a + b + c;
        if let Some(e) = v.source {
            assert(all[0] == a[0]);
            message::lemma_field_fits(all, 0);
            SocketEndpoint::round_trip(e);
        }
        if let Some(e) = v.destination {
            assert(all[a.len() as int] == b[0]);
            message::lemma_field_fits(all, a.len() as int);
            SocketEndpoint::round_trip(e);
        }
        if let Some(x) = v.environment_variable {
            wire::field_values(3, x, Seq::empty(), 0, false);
        }
        message::lemma_fields_back(all);
        message::lemma_collect_optional::<Self>(Seq::empty(), a);
        assert(Seq::<WireField>::empty() + a =~= a);
        message::lemma_collect_optional::<Self>(a, b);
        message::lemma_collect_optional::<Self>(a + b, c);
    }
}

/// What a client sends first: how the session is to be set up.
#[derive(Debug, Clone)]
pub struct InitialPayload {
    pub jumphost: Option<bool>,
    pub reverse_tunnels: Vec<PortForwardSourceRequest>,
    pub environment_variables: EnvironmentVariables,
}

pub struct InitialPayloadView {
    pub jumphost: Option<bool>,
    pub reverse_tunnels: Seq<PortForwardSourceRequestView>,
    pub environment_variables: environment::Entries,
}

impl View for InitialPayload {
    type V = InitialPayloadView;

    open spec fn view(&self) -> InitialPayloadView {
        InitialPayloadView {
            jumphost: self.jumphost,
            reverse_tunnels: self.reverse_tunnels@.map_values(|t: PortForwardSourceRequest| t@),
            environment_variables: self.environment_variables@,
        }
    }
}

impl Default for InitialPayload {
    fn default() -> (r: Self)
        ensures
            r@ == Self::empty(),
    {
        let r = InitialPayload {
            jumphost: None,
            reverse_tunnels: Vec::new(),
            environment_variables: EnvironmentVariables::new(),
        };
        assert(r@.reverse_tunnels =~= Seq::empty());
        r
    }
}

/// The jumphost field, which is written only where it is set: a missing field
/// means `false`.
pub open spec fn jumphost_fields(jumphost: Option<bool>) -> Seq<WireField> {
    if jumphost == Some(true) {
        seq![wire::bool_field(1, true)]
    } else {
        Seq::empty()
    }
}

/// The field of a tunnel.
pub open spec fn tunnel_field(t: PortForwardSourceRequestView) -> WireField {
    wire::bytes_field(2, message::encoding::<PortForwardSourceRequest>(t))
}

/// The field of an environment variable.
pub open spec fn variable_field(name: Seq<char>, value: Seq<char>) -> WireField {
    wire::bytes_field(
        3,
        message::encoding::<MapEntry>(MapEntryView { key: Some(name), value: Some(value) }),
    )
}

pub open spec fn tunnel_fields(tunnels: Seq<PortForwardSourceRequestView>) -> Seq<WireField> {
    tunnels.map_values(|t: PortForwardSourceRequestView| tunnel_field(t))
}

pub open spec fn variable_fields(e: environment::Entries) -> Seq<WireField> {
    e.map_values(|x: (Seq<char>, Seq<char>)| variable_field(x.0, x.1))
}

impl MessageSpec for InitialPayload {
    open spec fn empty() -> InitialPayloadView {
        InitialPayloadView {
            jumphost: None,
            reverse_tunnels: Seq::empty(),
            environment_variables: Seq::empty(),
        }
    }

    open spec fn fields(v: InitialPayloadView) -> Seq<WireField> {
        jumphost_fields(v.jumphost) + tunnel_fields(v.reverse_tunnels) + variable_fields(
            v.environment_variables,
        )
    }

    open spec fn apply(v: InitialPayloadView, f: WireField) -> Result<
        InitialPayloadView,
        ProtoError,
    > {
        if f.number == 1 {
            let jumphost = match wire::varint_of(f) {
                Some(n) => Some(n != 0),
                None => None,
            };
            Ok(InitialPayloadView { jumphost, ..v })
        } else if f.number == 2 {
            match wire::bytes_of(f) {
                None => Ok(v),
                Some(b) => match message::decoding::<PortForwardSourceRequest>(b) {
                    Err(e) => Err(e),
                    Ok(t) => Ok(
                        InitialPayloadView { reverse_tunnels: v.reverse_tunnels.push(t), ..v },
                    ),
                },
            }
        } else if f.number == 3 {
            match wire::bytes_of(f) {
                None => Ok(v),
                Some(b) => match message::decoding::<MapEntry>(b) {
                    Err(e) => Err(e),
                    Ok(MapEntryView { key: Some(name), value: Some(value) }) => Ok(
                        InitialPayloadView {
                            environment_variables: environment::with_variable(
                                v.environment_variables,
                                name,
                                value,
                            ),
                            ..v
                        },
                    ),
                    Ok(_) => Ok(v),
                },
            }
        } else {
            Ok(v)
        }
    }

    open spec fn valid(v: InitialPayloadView) -> bool {
        environment::unique_names(v.environment_variables)
    }

    /// A jumphost that is not set is not written, so it arrives as missing.
    open spec fn delivered(v: InitialPayloadView) -> InitialPayloadView {
        InitialPayloadView {
            jumphost: if v.jumphost == Some(true) {
                Some(true)
            } else {
                None
            },
            ..v
        }
    }
}

fn write_map_entry_string_string(out: &mut Vec<u8>, field: u32, k: &str, v: &str)
    ensures
        final(out)@ == old(out)@ + wire::encode_field(
            wire::bytes_field(
                field,
                message::encoding::<MapEntry>(MapEntryView { key: Some(k@), value: Some(v@) }),
            ),
        ),
{
    let mut entry: Vec<u8> = Vec::new();
    wire::write_string(&mut entry, 1, k);
    wire::write_string(&mut entry, 2, v);
    proof {
        let a = wire::string_field(1, k@);
        let b = wire::string_field(2, v@);
        message::lemma_encode_one(a);
        message::lemma_encode_one(b);
        message::lemma_encode_concat(seq![a], seq![b]);
        assert(entry@ =~= wire::encode_field(a) + wire::encode_field(b));
    }
    wire::write_embedded(out, field, entry.as_slice());
}

/// Tunnels read back in the order in which they were written.
proof fn lemma_tunnels_back(
    head: Seq<WireField>,
    v: InitialPayloadView,
    tunnels: Seq<PortForwardSourceRequestView>,
)
    requires
        message::collect::<InitialPayload>(head) == Ok::<InitialPayloadView, ProtoError>(v),
        v.reverse_tunnels == Seq::<PortForwardSourceRequestView>::empty(),
        forall|i: int| 0 <= i < tunnels.len() ==> (#[trigger] tunnel_fields(tunnels)[i]).data.len()
            <= u64::MAX,
    ensures
        message::collect::<InitialPayload>(head + tunnel_fields(tunnels)) == Ok::<
            InitialPayloadView,
            ProtoError,
        >(InitialPayloadView { reverse_tunnels: tunnels, ..v }),
    decreases tunnels.len(),
{
    let fields = tunnel_fields(tunnels);
    if tunnels.len() == 0 {
        assert(head + fields =~= head);
        assert(tunnels =~= Seq::empty());
    } else {
        let before = tunnels.drop_last();
        assert(tunnel_fields(before) =~= fields.drop_last());
        assert forall|i: int| 0 <= i < before.len() implies (#[trigger] tunnel_fields(
            before,
        )[i]).data.len() <= u64::MAX by {
            assert(tunnel_fields(before)[i] == fields[i]);
        }
        lemma_tunnels_back(head, v, before);
        let t = tunnels.last();
        assert(fields[fields.len() - 1] == tunnel_field(t));
        PortForwardSourceRequest::round_trip(t);
        assert(head + fields =~= (head + fields.drop_last()).push(fields.last()));
        message::lemma_collect_push::<InitialPayload>(head + fields.drop_last(), fields.last());
        assert(before.push(t) =~= tunnels);
    }
}

/// Variables read back in the order in which they were written.
proof fn lemma_variables_back(head: Seq<WireField>, v: InitialPayloadView, e: environment::Entries)
    requires
        message::collect::<InitialPayload>(head) == Ok::<InitialPayloadView, ProtoError>(v),
        v.environment_variables == environment::Entries::empty(),
        environment::unique_names(e),
        forall|i: int| 0 <= i < e.len() ==> (#[trigger] variable_fields(e)[i]).data.len()
            <= u64::MAX,
    ensures
        message::collect::<InitialPayload>(head + variable_fields(e)) == Ok::<
            InitialPayloadView,
            ProtoError,
        >(InitialPayloadView { environment_variables: e, ..v }),
    decreases e.len(),
{
    let fields = variable_fields(e);
    if e.len() == 0 {
        assert(head + fields =~= head);
        assert(e =~= Seq::empty());
    } else {
        let before = e.drop_last();
        assert(variable_fields(before) =~= fields.drop_last());
        assert forall|i: int| 0 <= i < before.len() implies (#[trigger] variable_fields(
            before,
        )[i]).data.len() <= u64::MAX by {
            assert(variable_fields(before)[i] == fields[i]);
        }
        lemma_variables_back(head, v, before);
        let (name, value) = e.last();
        let entry = MapEntryView { key: Some(name), value: Some(value) };
        assert(fields[fields.len() - 1] == variable_field(name, value));
        MapEntry::round_trip(entry);
        assert(head + fields =~= (head + fields.drop_last()).push(fields.last()));
        message::lemma_collect_push::<InitialPayload>(head + fields.drop_last(), fields.last());
        assert(!environment::has_name(before, name)) by {
            if environment::has_name(before, name) {
                let i = environment::position(before, name);
                assert(e[i].0 == e[e.len() - 1].0);
            }
        }
        assert(before.push((name, value)) =~= e);
    }
}

impl ProtoMessage for InitialPayload {
    fn encode(&self) -> Vec<u8> {
        let mut out: Vec<u8> = Vec::new();
        let ghost a = jumphost_fields(self@.jumphost);
        if let Some(true) = self.jumphost {
            proof {
                message::lemma_encode_one(wire::bool_field(1, true));
            }
            wire::write_bool(&mut out, 1, true);
        }
        assert(out@ =~= wire::encode_fields(a));
        let ghost tunnels = self@.reverse_tunnels;
        let ghost b = tunnel_fields(tunnels);
        let mut i: usize = 0;
        assert(a + b.take(0) =~= a);
        while i < self.reverse_tunnels.len()
            invariant
                i <= self.reverse_tunnels@.len(),
                tunnels == self@.reverse_tunnels,
                b == tunnel_fields(tunnels),
                out@ == wire::encode_fields(a + b.take(i as int)),
            decreases self.reverse_tunnels@.len() - i,
        {
            wire::write_embedded(&mut out, 2, self.reverse_tunnels[i].encode().as_slice());
            proof {
                let next = a + b.take(i + 1);
                assert(next.drop_last() =~= a + b.take(i as int));
                assert(next.last() == tunnel_field(tunnels[i as int]));
            }
            i += 1;
        }
        let ghost ab = a + b;
        assert(a + b.take(i as int) =~= ab);
        let ghost e = self@.environment_variables;
        let ghost c = variable_fields(e);
        let mut j: usize = 0;
        assert(ab + c.take(0) =~= ab);
        while j < self.environment_variables.len()
            invariant
                j <= e.len(),
                e == self@.environment_variables,
                c == variable_fields(e),
                out@ == wire::encode_fields(ab + c.take(j as int)),
            decreases e.len() - j,
        {
            let (k, v) = self.environment_variables.entry(j);
            write_map_entry_string_string(&mut out, 3, k, v);
            proof {
                let next = ab + c.take(j + 1);
                assert(next.drop_last() =~= ab + c.take(j as int));
                assert(next.last() == variable_field(e[j as int].0, e[j as int].1));
            }
            j += 1;
        }
        assert(ab + c.take(j as int) =~= a + b + c);
        out
    }

    fn decode(bytes: &[u8]) -> (r: Result<Self, ProtoError>) {
        let mut msg = InitialPayload::default();
        let fields = match wire::parse_message(bytes) {
            Ok(fields) => fields,
            Err(e) => return Err(e),
        };
        let ghost all = wire::views(fields@);
        let mut i: usize = 0;
        while i < fields.len()
            invariant
                i <= fields@.len(),
                all == wire::views(fields@),
                wire::fields_of(bytes@) == Ok::<Seq<WireField>, ProtoError>(all),
                Self::valid(msg@),
                message::collect::<Self>(all.take(i as int)) == Ok::<
                    InitialPayloadView,
                    ProtoError,
                >(msg@),
            decreases fields@.len() - i,
        {
            let f = &fields[i];
            let ghost before = msg@;
            proof {
                message::lemma_collect_next::<Self>(all, i as int);
            }
            match f.number {
                1 => {
                    msg.jumphost = match wire::field_as_varint(f) {
                        Some(v) => Some(v != 0),
                        None => None,
                    };
                },
                2 => {
                    if let Some(b) = wire::field_as_bytes(f) {
                        match PortForwardSourceRequest::decode(b.as_slice()) {
                            Ok(t) => {
                                let ghost tunnel = t@;
                                msg.reverse_tunnels.push(t);
                                assert(msg@.reverse_tunnels =~= before.reverse_tunnels.push(
                                    tunnel,
                                ));
                            },
                            Err(e) => {
                                proof {
                                    message::lemma_collect_error::<Self>(all, i + 1);
                                }
                                return Err(e);
                            },
                        }
                    }
                },
                3 => {
                    if let Some(b) = wire::field_as_bytes(f) {
                        match MapEntry::decode(b.as_slice()) {
                            Ok(entry) => {
                                if let (Some(k), Some(v)) = (entry.key, entry.value) {
                                    msg.environment_variables.insert(k, v);
                                }
                            },
                            Err(e) => {
                                proof {
                                    message::lemma_collect_error::<Self>(all, i + 1);
                                }
                                return Err(e);
                            },
                        }
                    }
                },
                _ => {},
            }
            i += 1;
        }
        assert(all.take(i as int) =~= all);
        Ok(msg)
    }

    proof fn round_trip(v: InitialPayloadView) {
        let a = jumphost_fields(v.jumphost);
        let b = tunnel_fields(v.reverse_tunnels);
        let c = variable_fields(v.environment_variables);
        let all = a + b + c;
        wire::field_values(1, Seq::empty(), Seq::empty(), 0, true);
        assert forall|i: int| 0 <= i < b.len() implies (#[trigger] b[i]).data.len()
            <= u64::MAX by {
            assert(all[a.len() + i] == b[i]);
            message::lemma_field_fits(all, a.len() + i);
        }
        assert forall|i: int| 0 <= i < c.len() implies (#[trigger] c[i]).data.len()
            <= u64::MAX by {
            assert(all[a.len() + b.len() + i] == c[i]);
            message::lemma_field_fits(all, a.len() + b.len() + i);
        }
        message::lemma_fields_back(all);
        message::lemma_collect_optional::<Self>(Seq::empty(), a);
        assert(Seq::<WireField>::empty() + a =~= a);
        let v1 = InitialPayloadView { jumphost: Self::delivered(v).jumphost, ..Self::empty() };
        assert(message::collect::<Self>(a) == Ok::<InitialPayloadView, ProtoError>(v1));
        lemma_tunnels_back(a, v1, v.reverse_tunnels);
        let v2 = InitialPayloadView { reverse_tunnels: v.reverse_tunnels, ..v1 };
        lemma_variables_back(a + b, v2, v.environment_variables);
    }
}

} // verus!
