use vstd::prelude::*;
use vstd::utf8::{decode_utf8, encode_utf8, valid_utf8};
use crate::bytes::{
    be_bytes, copy_range, lemma_be_round_trip, push_all, push_u32_be, read_u32_be, u32_be,
    utf8_string,
};

verus! {

/// The sequence number that marks a packet as unsequenced.
pub const UNSEQUENCED: u32 = 0xffff_ffff;

/// Why bytes could not be read as a packet or a message.
#[derive(Clone, Copy, Debug, PartialEq, Eq, Structural)]
pub enum ProtocolError {
    /// The bytes end before the packet or message does.
    UnexpectedEof,
    /// A text is not valid UTF-8.
    InvalidUtf8,
    /// A message begins with a type byte that stands for no message.
    UnknownMessage(u8),
    /// The packet carries the sequence number of unsequenced packets.
    NotSequenced,
}

/// A packet with a place in its sender's sequence, and its payload.
#[derive(Debug)]
pub struct SequencedPacket {
    pub sequence: u32,
    pub data: Vec<u8>,
}

impl SequencedPacket {
    /// The bytes of this packet on the wire: the sequence number, most
    /// significant byte first, then the payload.
    pub open spec fn encoding(self) -> Seq<u8> {
        be_bytes(self.sequence) + self.data@
    }

    /// Reads a sequenced packet: the first four bytes are its sequence
    /// number, the rest its payload.
    pub fn try_from(buf: Vec<u8>) -> (r: Result<SequencedPacket, ProtocolError>)
        ensures
            match r {
                Ok(p) => {
                    &&& buf.len() >= 4
                    &&& u32_be(buf@, 0) != UNSEQUENCED
                    &&& p.sequence == u32_be(buf@, 0)
                    &&& p.data@ == buf@.skip(4)
                },
                Err(e) => if buf.len() < 4 {
                    e == ProtocolError::UnexpectedEof
                } else {
                    u32_be(buf@, 0) == UNSEQUENCED && e == ProtocolError::NotSequenced
                },
            },
    {
        if buf.len() < 4 {
            return Err(ProtocolError::UnexpectedEof);
        }
        let sequence = read_u32_be(buf.as_slice(), 0);
        if sequence == UNSEQUENCED {
            return Err(ProtocolError::NotSequenced);
        }
        let data = copy_range(buf.as_slice(), 4, buf.len());
        assert(data@ =~= buf@.skip(4));
        Ok(SequencedPacket { sequence, data })
    }

    /// The bytes of this packet on the wire.
    pub fn to_bytes(&self) -> (r: Vec<u8>)
        ensures
            r@ == self.encoding(),
    {
        let mut out: Vec<u8> = Vec::new();
        push_u32_be(&mut out, self.sequence);
        push_all(&mut out, self.data.as_slice());
        assert(out@ =~= self.encoding());
        out
    }
}

/// A kind of message that can be read from the bytes of a packet.
pub trait TryRead<T> {
    /// A whole message stands at `at`.
    spec fn decodable(data: Seq<u8>, at: int) -> bool;

    /// Where the message that stands at `at` ends.
    spec fn extent(data: Seq<u8>, at: int) -> int;

    /// `msg` is the message that stands at `at`.
    spec fn decodes(data: Seq<u8>, at: int, msg: T) -> bool;

    /// Why no message can be read at `at`.
    spec fn failure(data: Seq<u8>, at: int) -> ProtocolError;

    /// Reads the message that stands at `at` and says where it ends.
    fn try_read(data: &[u8], at: usize) -> (r: Result<(T, usize), ProtocolError>)
        requires
            at < data.len(),
        ensures
            r is Ok <==> Self::decodable(data@, at as int),
            r matches Ok((msg, next)) ==> Self::decodes(data@, at as int, msg) && next
                == Self::extent(data@, at as int) && at < next <= data.len(),
            r matches Err(e) ==> e == Self::failure(data@, at as int),
    ;
}

/// What a client sends to the server.
#[derive(Debug)]
pub enum ClientMessage {
    Connect,
    RCon(String),
}

/// A text of `length` bytes stands at `at`, preceded by its length.
pub open spec fn text_fits(data: Seq<u8>, at: int) -> bool {
    at + 4 <= data.len() && at + 4 + u32_be(data, at) <= data.len()
}

/// The bytes of the text whose length stands at `at`.
pub open spec fn text_bytes(data: Seq<u8>, at: int) -> Seq<u8> {
    data.subrange(at + 4, at + 4 + u32_be(data, at))
}

impl ClientMessage {
    /// The bytes of this message on the wire: a type byte, and for a
    /// console command the length of its text and the text.
    pub open spec fn encoding(self) -> Seq<u8> {
        match self {
            ClientMessage::Connect => seq![1u8],
            ClientMessage::RCon(text) => seq![2u8] + be_bytes(encode_utf8(text@).len() as u32)
                + encode_utf8(text@),
        }
    }

    /// The bytes of this message on the wire.
    pub fn to_bytes(&self) -> (r: Vec<u8>)
        requires
            self.encodable(),
        ensures
            r@ == self.encoding(),
    {
        let mut out: Vec<u8> = Vec::new();
        match self {
            ClientMessage::Connect => {
                out.push(1);
            },
            ClientMessage::RCon(text) => {
                out.push(2);
                let bytes = text.as_str().as_bytes();
                push_u32_be(&mut out, bytes.len() as u32);
                push_all(&mut out, bytes);
            },
        }
        assert(out@ =~= self.encoding());
        out
    }
}

impl TryRead<ClientMessage> for ClientMessage {
    open spec fn decodable(data: Seq<u8>, at: int) -> bool {
        ||| data[at] == 1
        ||| data[at] == 2 && text_fits(data, at + 1) && valid_utf8(text_bytes(data, at + 1))
    }

    open spec fn extent(data: Seq<u8>, at: int) -> int {
        if data[at] == 1 {
            at + 1
        } else {
            at + 5 + u32_be(data, at + 1)
        }
    }

    open spec fn decodes(data: Seq<u8>, at: int, msg: ClientMessage) -> bool {
        match msg {
            ClientMessage::Connect => data[at] == 1,
            ClientMessage::RCon(text) => data[at] == 2 && text@ == decode_utf8(
                text_bytes(data, at + 1),
            ),
        }
    }

    open spec fn failure(data: Seq<u8>, at: int) -> ProtocolError {
        if data[at] != 2 {
            ProtocolError::UnknownMessage(data[at])
        } else if !text_fits(data, at + 1) {
            ProtocolError::UnexpectedEof
        } else {
            ProtocolError::InvalidUtf8
        }
    }

    fn try_read(data: &[u8], at: usize) -> (r: Result<(ClientMessage, usize), ProtocolError>) {
        let kind = data[at];
        if kind == 1 {
            Ok((ClientMessage::Connect, at + 1))
        } else if kind == 2 {
            match read_text(data, at + 1) {
                Ok((text, next)) => Ok((ClientMessage::RCon(text), next)),
                Err(e) => Err(e),
            }
        } else {
            Err(ProtocolError::UnknownMessage(kind))
        }
    }
}

/// Reads a text that is preceded by its length in bytes.
pub fn read_text(data: &[u8], at: usize) -> (r: Result<(String, usize), ProtocolError>)
    requires
        at <= data.len(),
    ensures
        match r {
            Ok((text, next)) => {
                &&& text_fits(data@, at as int)
                &&& valid_utf8(text_bytes(data@, at as int))
                &&& text@ == decode_utf8(text_bytes(data@, at as int))
                &&& next == at + 4 + u32_be(data@, at as int)
            },
            Err(e) => if !text_fits(data@, at as int) {
                e == ProtocolError::UnexpectedEof
            } else {
                !valid_utf8(text_bytes(data@, at as int)) && e == ProtocolError::InvalidUtf8
            },
        },
{
    if data.len() - at < 4 {
        return Err(ProtocolError::UnexpectedEof);
    }
    let length = read_u32_be(data, at) as usize;
    if data.len() - at - 4 < length {
        return Err(ProtocolError::UnexpectedEof);
    }
    let bytes = copy_range(data, at + 4, at + 4 + length);
    match utf8_string(bytes) {
        Some(text) => Ok((text, at + 4 + length)),
        None => Err(ProtocolError::InvalidUtf8),
    }
}

/// What the server sends to a client.
#[derive(Debug)]
pub enum ServerMessage {
    ConnectResponse,
    ComponentDelete(u32, u8),
    ComponentDelta(u32, u8, Vec<u8>),
    ComponentNew(u32, u8),
    Disconnect,
    EntityDelete(u32),
    EntityNew(u32),
}

impl ServerMessage {
    /// The bytes of this message on the wire: a type byte, then the
    /// message's fields in order, numbers most significant byte first, and a
    /// run of bytes preceded by its length.
    pub open spec fn encoding(self) -> Seq<u8> {
        match self {
            ServerMessage::ConnectResponse => seq![1u8],
            ServerMessage::ComponentDelete(entity, component) => seq![2u8] + be_bytes(entity)
                + seq![component],
            ServerMessage::ComponentDelta(entity, component, data) => seq![3u8] + be_bytes(entity)
                + seq![component] + be_bytes(data@.len() as u32) + data@,
            ServerMessage::ComponentNew(entity, component) => seq![4u8] + be_bytes(entity)
                + seq![component],
            ServerMessage::Disconnect => seq![5u8],
            ServerMessage::EntityDelete(entity) => seq![6u8] + be_bytes(entity),
            ServerMessage::EntityNew(entity) => seq![7u8] + be_bytes(entity),
        }
    }

    /// The bytes of this message on the wire.
    pub fn to_bytes(&self) -> (r: Vec<u8>)
        requires
            self.encodable(),
        ensures
            r@ == self.encoding(),
    {
        let mut out: Vec<u8> = Vec::new();
        match self {
            ServerMessage::ConnectResponse => {
                out.push(1);
            },
            ServerMessage::ComponentDelete(entity, component) => {
                out.push(2);
                push_u32_be(&mut out, *entity);
                out.push(*component);
            },
            ServerMessage::ComponentDelta(entity, component, data) => {
                out.push(3);
                push_u32_be(&mut out, *entity);
                out.push(*component);
                push_u32_be(&mut out, data.len() as u32);
                push_all(&mut out, data.as_slice());
            },
            ServerMessage::ComponentNew(entity, component) => {
                out.push(4);
                push_u32_be(&mut out, *entity);
                out.push(*component);
            },
            ServerMessage::Disconnect => {
                out.push(5);
            },
            ServerMessage::EntityDelete(entity) => {
                out.push(6);
                push_u32_be(&mut out, *entity);
            },
            ServerMessage::EntityNew(entity) => {
                out.push(7);
                push_u32_be(&mut out, *entity);
            },
        }
        assert(out@ =~= self.encoding());
        out
    }
}

/// How many bytes the fixed part of a server message of type `kind` takes,
/// the type byte included; zero for a type that stands for no message.
pub open spec fn server_head(kind: u8) -> int {
    if kind == 1 || kind == 5 {
        1
    } else if kind == 2 || kind == 4 {
        6
    } else if kind == 3 {
        10
    } else if kind == 6 || kind == 7 {
        5
    } else {
        0
    }
}

impl TryRead<ServerMessage> for ServerMessage {
    open spec fn decodable(data: Seq<u8>, at: int) -> bool {
        &&& server_head(data[at]) > 0
        &&& at + server_head(data[at]) <= data.len()
        &&& data[at] == 3 ==> at + 10 + u32_be(data, at + 6) <= data.len()
    }

    open spec fn extent(data: Seq<u8>, at: int) -> int {
        if data[at] == 3 {
            at + 10 + u32_be(data, at + 6)
        } else {
            at + server_head(data[at])
        }
    }

    open spec fn decodes(data: Seq<u8>, at: int, msg: ServerMessage) -> bool {
        match msg {
            ServerMessage::ConnectResponse => data[at] == 1,
            ServerMessage::ComponentDelete(entity, component) => data[at] == 2 && entity == u32_be(
                data,
                at + 1,
            ) && component == data[at + 5],
            ServerMessage::ComponentDelta(entity, component, bytes) => data[at] == 3 && entity
                == u32_be(data, at + 1) && component == data[at + 5] && bytes@ == data.subrange(
                at + 10,
                at + 10 + u32_be(data, at + 6),
            ),
            ServerMessage::ComponentNew(entity, component) => data[at] == 4 && entity == u32_be(
                data,
                at + 1,
            ) && component == data[at + 5],
            ServerMessage::Disconnect => data[at] == 5,
            ServerMessage::EntityDelete(entity) => data[at] == 6 && entity == u32_be(data, at + 1),
            ServerMessage::EntityNew(entity) => data[at] == 7 && entity == u32_be(data, at + 1),
        }
    }

    open spec fn failure(data: Seq<u8>, at: int) -> ProtocolError {
        if server_head(data[at]) == 0 {
            ProtocolError::UnknownMessage(data[at])
        } else {
            ProtocolError::UnexpectedEof
        }
    }

    fn try_read(data: &[u8], at: usize) -> (r: Result<(ServerMessage, usize), ProtocolError>) {
        let kind = data[at];
        let left = data.len() - at;
        if kind == 1 {
            Ok((ServerMessage::ConnectResponse, at + 1))
        } else if kind == 5 {
            Ok((ServerMessage::Disconnect, at + 1))
        } else if kind == 2 || kind == 4 {
            if left < 6 {
                return Err(ProtocolError::UnexpectedEof);
            }
            let entity = read_u32_be(data, at + 1);
            let component = data[at + 5];
            if kind == 2 {
                Ok((ServerMessage::ComponentDelete(entity, component), at + 6))
            } else {
                Ok((ServerMessage::ComponentNew(entity, component), at + 6))
            }
        } else if kind == 3 {
            if left < 10 {
                return Err(ProtocolError::UnexpectedEof);
            }
            let entity = read_u32_be(data, at + 1);
            let component = data[at + 5];
            let length = read_u32_be(data, at + 6) as usize;
            if left - 10 < length {
                return Err(ProtocolError::UnexpectedEof);
            }
            let bytes = copy_range(data, at + 10, at + 10 + length);
            Ok((ServerMessage::ComponentDelta(entity, component, bytes), at + 10 + length))
        } else if kind == 6 || kind == 7 {
            if left < 5 {
                return Err(ProtocolError::UnexpectedEof);
            }
            let entity = read_u32_be(data, at + 1);
            if kind == 6 {
                Ok((ServerMessage::EntityDelete(entity), at + 5))
            } else {
                Ok((ServerMessage::EntityNew(entity), at + 5))
            }
        } else {
            Err(ProtocolError::UnknownMessage(kind))
        }
    }
}

/// What travels between client and server: a run of messages outside any
/// sequence, or a sequenced packet.
#[derive(Debug)]
pub enum Packet<T> {
    Unsequenced(Vec<T>),
    Sequenced(SequencedPacket),
}

/// Where the message after the first `k` messages begins, when the first
/// begins at `from`.
pub open spec fn message_start<T: TryRead<T>>(data: Seq<u8>, from: int, k: nat) -> int
    decreases k,
{
    if k == 0 {
        from
    } else {
        T::extent(data, message_start::<T>(data, from, (k - 1) as nat))
    }
}

/// The first `k` messages of an unsequenced packet can all be read.
pub open spec fn readable<T: TryRead<T>>(data: Seq<u8>, k: nat) -> bool {
    forall|i: nat|
        i < k ==> {
            let at = #[trigger] message_start::<T>(data, 4, i);
            4 <= at < data.len() && T::decodable(data, at)
        }
}

impl<T> From<SequencedPacket> for Packet<T> {
    /// A sequenced packet as a packet.
    fn from(packet: SequencedPacket) -> (r: Packet<T>) {
        Packet::Sequenced(packet)
    }
}

impl<T> vstd::std_specs::convert::FromSpecImpl<SequencedPacket> for Packet<T> {
    open spec fn obeys_from_spec() -> bool {
        true
    }

    open spec fn from_spec(packet: SequencedPacket) -> Packet<T> {
        Packet::Sequenced(packet)
    }
}

impl<T: TryRead<T>> Packet<T> {
    /// Reads a packet. After the sequence number of unsequenced packets
    /// come messages, one after the other up to the end of the bytes; after
    /// any other comes the payload of a sequenced packet.
    pub fn try_from(data: Vec<u8>) -> (r: Result<Packet<T>, ProtocolError>)
        ensures
            data.len() < 4 ==> r == Err::<Packet<T>, ProtocolError>(ProtocolError::UnexpectedEof),
            data.len() >= 4 && u32_be(data@, 0) != UNSEQUENCED ==> (r matches Ok(
                Packet::Sequenced(p),
            ) && p.sequence == u32_be(data@, 0) && p.data@ == data@.skip(4)),
            data.len() >= 4 && u32_be(data@, 0) == UNSEQUENCED ==> match r {
                Ok(Packet::Unsequenced(messages)) => {
                    &&& readable::<T>(data@, messages.len() as nat)
                    &&& message_start::<T>(data@, 4, messages.len() as nat) == data.len()
                    &&& forall|i: nat|
                        i < messages.len() ==> T::decodes(
                            data@,
                            #[trigger] message_start::<T>(data@, 4, i),
                            messages[i as int],
                        )
                },
                Ok(Packet::Sequenced(_)) => false,
                Err(e) => exists|k: nat|
                    {
                        let at = #[trigger] message_start::<T>(data@, 4, k);
                        &&& readable::<T>(data@, k)
                        &&& 4 <= at < data.len()
                        &&& !T::decodable(data@, at)
                        &&& e == T::failure(data@, at)
                    },
            },
    {
        if data.len() < 4 {
            return Err(ProtocolError::UnexpectedEof);
        }
        let sequence = read_u32_be(data.as_slice(), 0);
        if sequence != UNSEQUENCED {
            return match SequencedPacket::try_from(data) {
                Ok(p) => Ok(Packet::Sequenced(p)),
                Err(e) => Err(e),
            };
        }
        let mut messages: Vec<T> = Vec::new();
        let mut at: usize = 4;
        while at < data.len()
            invariant
                4 <= at <= data.len(),
                u32_be(data@, 0) == UNSEQUENCED,
                at == message_start::<T>(data@, 4, messages.len() as nat),
                readable::<T>(data@, messages.len() as nat),
                forall|i: nat|
                    i < messages.len() ==> T::decodes(
                        data@,
                        #[trigger] message_start::<T>(data@, 4, i),
                        messages[i as int],
                    ),
            decreases data.len() - at,
        {
            let ghost k = messages.len() as nat;
            match T::try_read(data.as_slice(), at) {
                Ok((message, next)) => {
                    messages.push(message);
                    assert(message_start::<T>(data@, 4, k + 1) == next);
                    at = next;
                },
                Err(e) => {
                    return Err(e);
                },
            }
        }
        Ok(Packet::Unsequenced(messages))
    }
}

/// Reading back the bytes of a sequenced packet gives its sequence number
/// and its payload again.
pub proof fn lemma_sequenced_round_trip(p: SequencedPacket)
    ensures
        p.encoding().len() >= 4,
        u32_be(p.encoding(), 0) == p.sequence,
        p.encoding().skip(4) == p.data@,
{
    let e = p.encoding();
    assert(e.subrange(0, 4) =~= be_bytes(p.sequence));
    lemma_be_round_trip(p.sequence, e, 0);
    assert(e.skip(4) =~= p.data@);
}

impl ClientMessage {
    /// The length of the message's text fits the four bytes it is written
    /// in.
    pub open spec fn encodable(self) -> bool {
        self matches ClientMessage::RCon(text) ==> encode_utf8(text@).len() <= u32::MAX
    }
}

impl ServerMessage {
    /// The length of the message's bytes fits the four bytes it is written
    /// in.
    pub open spec fn encodable(self) -> bool {
        self matches ServerMessage::ComponentDelta(_, _, data) ==> data.len() <= u32::MAX
    }
}

/// The bytes of the messages on the wire, one after the other.
pub open spec fn client_encodings(messages: Seq<ClientMessage>) -> Seq<u8>
    decreases messages.len(),
{
    if messages.len() == 0 {
        Seq::empty()
    } else {
        client_encodings(messages.drop_last()) + messages.last().encoding()
    }
}

/// The bytes of the messages on the wire, one after the other.
pub open spec fn server_encodings(messages: Seq<ServerMessage>) -> Seq<u8>
    decreases messages.len(),
{
    if messages.len() == 0 {
        Seq::empty()
    } else {
        server_encodings(messages.drop_last()) + messages.last().encoding()
    }
}

impl Packet<ClientMessage> {
    /// The bytes of this packet on the wire: for a run of messages, the
    /// sequence number of unsequenced packets and then the messages.
    pub open spec fn encoding(self) -> Seq<u8> {
        match self {
            Packet::Unsequenced(messages) => be_bytes(UNSEQUENCED) + client_encodings(messages@),
            Packet::Sequenced(p) => p.encoding(),
        }
    }

    /// The bytes of this packet on the wire.
    pub fn to_bytes(&self) -> (r: Vec<u8>)
        requires
            self matches Packet::Unsequenced(messages) ==> forall|i: int|
                0 <= i < messages.len() ==> (#[trigger] messages[i]).encodable(),
        ensures
            r@ == self.encoding(),
    {
        match self {
            Packet::Unsequenced(messages) => {
                let mut out: Vec<u8> = Vec::new();
                push_u32_be(&mut out, UNSEQUENCED);
                let mut i: usize = 0;
                assert(messages@.take(0) =~= Seq::<ClientMessage>::empty());
                while i < messages.len()
                    invariant
                        i <= messages.len(),
                        forall|k: int|
                            0 <= k < messages.len() ==> (#[trigger] messages[k]).encodable(),
                        out@ == be_bytes(UNSEQUENCED) + client_encodings(messages@.take(i as int)),
                    decreases messages.len() - i,
                {
                    let bytes = messages[i].to_bytes();
                    proof {
                        let now = messages@.take(i + 1);
                        assert(now.drop_last() =~= messages@.take(i as int));
                        assert(now.last() == messages@[i as int]);
                    }
                    push_all(&mut out, bytes.as_slice());
                    assert(out@ =~= be_bytes(UNSEQUENCED) + client_encodings(
                        messages@.take(i + 1),
                    ));
                    i += 1;
                }
                assert(messages@.take(i as int) =~= messages@);
                out
            },
            Packet::Sequenced(p) => p.to_bytes(),
        }
    }
}

impl Packet<ServerMessage> {
    /// The bytes of this packet on the wire: for a run of messages, the
    /// sequence number of unsequenced packets and then the messages.
    pub open spec fn encoding(self) -> Seq<u8> {
        match self {
            Packet::Unsequenced(messages) => be_bytes(UNSEQUENCED) + server_encodings(messages@),
            Packet::Sequenced(p) => p.encoding(),
        }
    }

    /// The bytes of this packet on the wire.
    pub fn to_bytes(&self) -> (r: Vec<u8>)
        requires
            self matches Packet::Unsequenced(messages) ==> forall|i: int|
                0 <= i < messages.len() ==> (#[trigger] messages[i]).encodable(),
        ensures
            r@ == self.encoding(),
    {
        match self {
            Packet::Unsequenced(messages) => {
                let mut out: Vec<u8> = Vec::new();
                push_u32_be(&mut out, UNSEQUENCED);
                let mut i: usize = 0;
                assert(messages@.take(0) =~= Seq::<ServerMessage>::empty());
                while i < messages.len()
                    invariant
                        i <= messages.len(),
                        forall|k: int|
                            0 <= k < messages.len() ==> (#[trigger] messages[k]).encodable(),
                        out@ == be_bytes(UNSEQUENCED) + server_encodings(messages@.take(i as int)),
                    decreases messages.len() - i,
                {
                    let bytes = messages[i].to_bytes();
                    proof {
                        let now = messages@.take(i + 1);
                        assert(now.drop_last() =~= messages@.take(i as int));
                        assert(now.last() == messages@[i as int]);
                    }
                    push_all(&mut out, bytes.as_slice());
                    assert(out@ =~= be_bytes(UNSEQUENCED) + server_encodings(
                        messages@.take(i + 1),
                    ));
                    i += 1;
                }
                assert(messages@.take(i as int) =~= messages@);
                out
            },
            Packet::Sequenced(p) => p.to_bytes(),
        }
    }
}

} // verus!
