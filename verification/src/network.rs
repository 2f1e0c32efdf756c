//! How the server is reached.
use crate::names::texts;
use vstd::prelude::*;

verus! {

/// The protocol that client and server must agree on.
pub const PROTOCOL_ID: u64 = 0;

/// The ports of the server where no others are given, one for each way to reach it.
pub const UDP_PORT: u16 = 5000;

pub const WEB_TRANSPORT_PORT: u16 = 5001;

pub const WEB_SOCKET_PORT: u16 = 5002;

/// How often the server sends what has changed, in milliseconds.
pub const REPLICATION_INTERVAL_MILLIS: u64 = 100;

/// A way to reach the server.
#[derive(Clone, Copy, Debug, PartialEq, Eq, Structural)]
pub enum ServerTransport {
    Udp { port: u16 },
    WebTransport { port: u16 },
    WebSocket { port: u16 },
    /// Channels within one process.
    Crossbeam,
}

/// The ways to reach a server, and what it asks of those who do.
#[derive(Debug)]
pub struct ServerNetworkConfig {
    pub transports: Vec<ServerTransport>,
    pub bind_addr: [u8; 4],
    pub protocol_id: u64,
    pub private_key: [u8; 32],
    pub replication_interval_millis: u64,
}

/// The ways to reach a server where no others are given: UDP for native clients, WebTransport and
/// WebSocket for those in a browser.
pub open spec fn default_transports() -> Seq<ServerTransport> {
    seq![
        ServerTransport::Udp { port: UDP_PORT },
        ServerTransport::WebTransport { port: WEB_TRANSPORT_PORT },
        ServerTransport::WebSocket { port: WEB_SOCKET_PORT },
    ]
}

impl Default for ServerNetworkConfig {
    /// A server that listens on all addresses of its machine, in every way but within the process.
    fn default() -> (config: ServerNetworkConfig)
        ensures
            config.transports@ == default_transports(),
            config.bind_addr@ == seq![0u8, 0u8, 0u8, 0u8],
            config.protocol_id == PROTOCOL_ID,
            forall|i: int| 0 <= i < 32 ==> config.private_key@[i] == 0,
            config.replication_interval_millis == REPLICATION_INTERVAL_MILLIS,
    {
        let mut transports: Vec<ServerTransport> = Vec::new();
        transports.push(ServerTransport::Udp { port: UDP_PORT });
        transports.push(ServerTransport::WebTransport { port: WEB_TRANSPORT_PORT });
        transports.push(ServerTransport::WebSocket { port: WEB_SOCKET_PORT });
        assert(transports@ =~= default_transports());
        let config = ServerNetworkConfig {
            transports,
            bind_addr: [0u8, 0u8, 0u8, 0u8],
            protocol_id: PROTOCOL_ID,
            private_key: [0u8; 32],
            replication_interval_millis: REPLICATION_INTERVAL_MILLIS,
        };
        assert(config.bind_addr@ =~= seq![0u8, 0u8, 0u8, 0u8]);
        config
    }
}

/// Where a transport listens.
#[derive(Clone, Copy, Debug, PartialEq, Eq)]
pub struct ListenAddress {
    pub octets: [u8; 4],
    pub port: u16,
}

/// What proves the server's identity to those who connect.
#[derive(Clone, Copy, Debug, PartialEq, Eq, Structural)]
pub enum ServerIdentity {
    /// Nothing.
    Unproven,
    /// The certificate in the project's files.
    Certificate,
    /// A certificate that the server signs itself.
    SelfSigned,
}

impl ServerIdentity {
    /// The hosts that a certificate which the server signs itself speaks for.
    pub open spec fn hosts_spec(self) -> Seq<Seq<char>> {
        match self {
            ServerIdentity::SelfSigned => seq!["localhost"@, "127.0.0.1"@],
            _ => Seq::empty(),
        }
    }

    pub fn hosts(self) -> (hosts: Vec<String>)
        ensures
            texts(hosts@) == self.hosts_spec(),
    {
        let mut hosts: Vec<String> = Vec::new();
        if let ServerIdentity::SelfSigned = self {
            hosts.push("localhost".to_string());
            hosts.push("127.0.0.1".to_string());
        }
        assert(texts(hosts@) =~= self.hosts_spec());
        hosts
    }
}

/// A server that is to be started, one for each transport.
#[derive(Debug)]
pub struct ServerStart {
    pub name: String,
    pub transport: ServerTransport,
    pub address: Option<ListenAddress>,
    pub identity: ServerIdentity,
    /// What the server asks of those who connect.
    pub protocol_id: u64,
    pub private_key: [u8; 32],
}

impl ServerTransport {
    /// The port, if the transport has one.
    pub open spec fn port_spec(self) -> Option<u16> {
        match self {
            ServerTransport::Udp { port } => Some(port),
            ServerTransport::WebTransport { port } => Some(port),
            ServerTransport::WebSocket { port } => Some(port),
            ServerTransport::Crossbeam => None,
        }
    }

    /// The name of a server that is reached this way.
    pub open spec fn server_name(self) -> Seq<char> {
        match self {
            ServerTransport::Udp { .. } => "UDP Server"@,
            ServerTransport::WebTransport { .. } => "WebTransport Server"@,
            ServerTransport::WebSocket { .. } => "WebSocket Server"@,
            ServerTransport::Crossbeam => "Crossbeam Server"@,
        }
    }

    /// What a server that is reached this way proves its identity by.
    pub open spec fn identity_spec(self) -> ServerIdentity {
        match self {
            ServerTransport::WebTransport { .. } => ServerIdentity::Certificate,
            ServerTransport::WebSocket { .. } => ServerIdentity::SelfSigned,
            _ => ServerIdentity::Unproven,
        }
    }

    fn port(&self) -> (port: Option<u16>)
        ensures
            port == self.port_spec(),
    {
        match self {
            ServerTransport::Udp { port } => Some(*port),
            ServerTransport::WebTransport { port } => Some(*port),
            ServerTransport::WebSocket { port } => Some(*port),
            ServerTransport::Crossbeam => None,
        }
    }
}

/// Whether `start` is the server for a transport.
pub open spec fn starts(
    start: ServerStart,
    transport: ServerTransport,
    config: &ServerNetworkConfig,
) -> bool {
    &&& start.name@ == transport.server_name()
    &&& start.transport == transport
    &&& start.identity == transport.identity_spec()
    &&& start.address == match transport.port_spec() {
        Some(port) => Some(ListenAddress { octets: config.bind_addr, port }),
        None => None,
    }
    &&& start.protocol_id == config.protocol_id
    &&& start.private_key == config.private_key
}

fn server_for(transport: ServerTransport, config: &ServerNetworkConfig) -> (start: ServerStart)
    ensures
        starts(start, transport, config),
{
    let (name, identity): (&str, ServerIdentity) = match transport {
        ServerTransport::Udp { .. } => ("UDP Server", ServerIdentity::Unproven),
        ServerTransport::WebTransport { .. } => ("WebTransport Server", ServerIdentity::Certificate),
        ServerTransport::WebSocket { .. } => ("WebSocket Server", ServerIdentity::SelfSigned),
        ServerTransport::Crossbeam => ("Crossbeam Server", ServerIdentity::Unproven),
    };
    let address: Option<ListenAddress> = match transport.port() {
        Some(port) => Some(ListenAddress { octets: config.bind_addr, port }),
        None => None,
    };
    ServerStart {
        name: name.to_string(),
        transport,
        address,
        identity,
        protocol_id: config.protocol_id,
        private_key: config.private_key,
    }
}

/// The servers to start: one for each transport, in order.
pub fn start_server(config: &ServerNetworkConfig) -> (servers: Vec<ServerStart>)
    ensures
        servers@.len() == config.transports@.len(),
        forall|i: int|
            0 <= i < servers@.len() ==> starts(
                #[trigger] servers@[i],
                config.transports@[i],
                config,
            ),
{
    let mut servers: Vec<ServerStart> = Vec::new();
    let mut i: usize = 0;
    while i < config.transports.len()
        invariant
            i <= config.transports@.len(),
            servers@.len() == i,
            forall|k: int|
                0 <= k < i ==> starts(
                    #[trigger] servers@[k],
                    config.transports@[k],
                    config,
                ),
        decreases config.transports@.len() - i,
    {
        servers.push(server_for(config.transports[i], config));
        i = i + 1;
    }
    servers
}

/// How a client reaches the server, and who it says it is.
#[derive(Clone, Copy, Debug)]
pub struct UiClientConfig {
    pub server_addr: ListenAddress,
    pub client_id: u64,
    pub protocol_id: u64,
    pub private_key: [u8; 32],
}

impl Default for UiClientConfig {
    /// A server on the same machine, reached by WebTransport.
    fn default() -> (config: UiClientConfig)
        ensures
            config.server_addr.octets@ == seq![127u8, 0u8, 0u8, 1u8],
            config.server_addr.port == WEB_TRANSPORT_PORT,
            config.client_id == 0,
            config.protocol_id == PROTOCOL_ID,
            forall|i: int| 0 <= i < 32 ==> config.private_key@[i] == 0,
    {
        let config = UiClientConfig {
            server_addr: ListenAddress { octets: [127u8, 0u8, 0u8, 1u8], port: WEB_TRANSPORT_PORT },
            client_id: 0,
            protocol_id: PROTOCOL_ID,
            private_key: [0u8; 32],
        };
        assert(config.server_addr.octets@ =~= seq![127u8, 0u8, 0u8, 1u8]);
        config
    }
}

/// A client that keeps its defaults meets a server that keeps its own: the server listens by
/// WebTransport on the port that the client knocks at, and both speak the same protocol with the same
/// key.
pub proof fn law_defaults_meet(server: ServerNetworkConfig, client: UiClientConfig)
    requires
        call_ensures(ServerNetworkConfig::default, (), server),
        call_ensures(UiClientConfig::default, (), client),
    ensures
        server.transports@.contains(
            ServerTransport::WebTransport { port: client.server_addr.port },
        ),
        server.protocol_id == client.protocol_id,
        server.private_key@ == client.private_key@,
{
    assert(server.transports@[1] == (ServerTransport::WebTransport {
        port: client.server_addr.port,
    }));
    assert(server.private_key@ =~= client.private_key@);
}

/// Which way messages go.
#[derive(Clone, Copy, Debug, PartialEq, Eq, Structural)]
pub enum Direction {
    ClientToServer,
    ServerToClient,
    Bidirectional,
}

/// How the messages of a channel arrive. None is lost.
#[derive(Clone, Copy, Debug, PartialEq, Eq, Structural)]
pub enum Delivery {
    /// In the order in which they were sent.
    Ordered,
    /// As they come.
    Unordered,
}

/// A channel between client and server.
#[derive(Clone, Copy, Debug, PartialEq, Eq, Structural)]
pub enum Channel {
    /// Voxel edits.
    VoxelChannel,
    /// Chunk data.
    ChunkChannel,
    /// Transitions between maps.
    MapChannel,
}

impl Channel {
    pub open spec fn direction_spec(self) -> Direction {
        match self {
            Channel::ChunkChannel => Direction::ServerToClient,
            _ => Direction::Bidirectional,
        }
    }

    pub open spec fn delivery_spec(self) -> Delivery {
        match self {
            Channel::ChunkChannel => Delivery::Unordered,
            _ => Delivery::Ordered,
        }
    }

    pub fn direction(self) -> (direction: Direction)
        ensures
            direction == self.direction_spec(),
    {
        match self {
            Channel::ChunkChannel => Direction::ServerToClient,
            _ => Direction::Bidirectional,
        }
    }

    pub fn delivery(self) -> (delivery: Delivery)
        ensures
            delivery == self.delivery_spec(),
    {
        match self {
            Channel::ChunkChannel => Delivery::Unordered,
            _ => Delivery::Ordered,
        }
    }
}

/// A kind of message between client and server.
#[derive(Clone, Copy, Debug, PartialEq, Eq, Structural)]
pub enum MessageKind {
    VoxelEditRequest,
    VoxelEditBroadcast,
    VoxelEditAck,
    VoxelEditReject,
    SectionBlocksUpdate,
    ChunkDataSync,
    UnloadColumn,
    PlayerMapSwitchRequest,
    MapTransitionStart,
    MapTransitionReady,
    MapTransitionEnd,
}

impl MessageKind {
    /// Clients ask and report; everything else comes from the server.
    pub open spec fn direction_spec(self) -> Direction {
        match self {
            MessageKind::VoxelEditRequest => Direction::ClientToServer,
            MessageKind::PlayerMapSwitchRequest => Direction::ClientToServer,
            MessageKind::MapTransitionReady => Direction::ClientToServer,
            _ => Direction::ServerToClient,
        }
    }

    pub open spec fn channel_spec(self) -> Channel {
        match self {
            MessageKind::ChunkDataSync => Channel::ChunkChannel,
            MessageKind::UnloadColumn => Channel::ChunkChannel,
            MessageKind::PlayerMapSwitchRequest => Channel::MapChannel,
            MessageKind::MapTransitionStart => Channel::MapChannel,
            MessageKind::MapTransitionReady => Channel::MapChannel,
            MessageKind::MapTransitionEnd => Channel::MapChannel,
            _ => Channel::VoxelChannel,
        }
    }

    pub fn direction(self) -> (direction: Direction)
        ensures
            direction == self.direction_spec(),
    {
        match self {
            MessageKind::VoxelEditRequest => Direction::ClientToServer,
            MessageKind::PlayerMapSwitchRequest => Direction::ClientToServer,
            MessageKind::MapTransitionReady => Direction::ClientToServer,
            _ => Direction::ServerToClient,
        }
    }

    pub fn channel(self) -> (channel: Channel)
        ensures
            channel == self.channel_spec(),
    {
        match self {
            MessageKind::ChunkDataSync => Channel::ChunkChannel,
            MessageKind::UnloadColumn => Channel::ChunkChannel,
            MessageKind::PlayerMapSwitchRequest => Channel::MapChannel,
            MessageKind::MapTransitionStart => Channel::MapChannel,
            MessageKind::MapTransitionReady => Channel::MapChannel,
            MessageKind::MapTransitionEnd => Channel::MapChannel,
            _ => Channel::VoxelChannel,
        }
    }
}

/// Each message goes the way that its channel goes.
pub proof fn law_channels_carry_their_messages(message: MessageKind)
    ensures
        message.channel_spec().direction_spec() == Direction::Bidirectional
            || message.channel_spec().direction_spec() == message.direction_spec(),
{
}

/// A server is started for its transport: under the transport's name, at the transport's port on the
/// addresses of the configuration, with its protocol and key. One within the process listens nowhere. A
/// WebTransport server shows a certificate, a WebSocket server one that it signs itself.
pub proof fn law_servers_listen_at_their_port(
    start: ServerStart,
    transport: ServerTransport,
    config: &ServerNetworkConfig,
)
    requires
        starts(start, transport, config),
    ensures
        start.transport == transport,
        start.protocol_id == config.protocol_id,
        start.private_key == config.private_key,
        match transport {
            ServerTransport::Udp { port } => start.name@ == "UDP Server"@ && start.identity
                == ServerIdentity::Unproven && start.address == Some(
                ListenAddress { octets: config.bind_addr, port },
            ),
            ServerTransport::WebTransport { port } => start.name@ == "WebTransport Server"@
                && start.identity == ServerIdentity::Certificate && start.address == Some(
                ListenAddress { octets: config.bind_addr, port },
            ),
            ServerTransport::WebSocket { port } => start.name@ == "WebSocket Server"@
                && start.identity == ServerIdentity::SelfSigned && start.address == Some(
                ListenAddress { octets: config.bind_addr, port },
            ),
            ServerTransport::Crossbeam => start.name@ == "Crossbeam Server"@ && start.identity
                == ServerIdentity::Unproven && start.address is None,
        },
{
}

/// A server that keeps its defaults is reached by UDP at port 5000, by WebTransport at 5001 and by
/// WebSocket at 5002, speaks protocol 0, and sends what has changed ten times a second.
pub proof fn law_default_server_is_reached_in_three_ways()
    ensures
        default_transports() == seq![
            ServerTransport::Udp { port: 5000 },
            ServerTransport::WebTransport { port: 5001 },
            ServerTransport::WebSocket { port: 5002 },
        ],
        PROTOCOL_ID == 0,
        REPLICATION_INTERVAL_MILLIS == 100,
        WEB_TRANSPORT_PORT == 5001,
{
}

/// A certificate that the server signs itself speaks for the machine that it runs on; no other names
/// its hosts here.
pub proof fn law_self_signed_certificates_name_the_machine(identity: ServerIdentity)
    ensures
        identity == ServerIdentity::SelfSigned ==> identity.hosts_spec() == seq![
            "localhost"@,
            "127.0.0.1"@,
        ],
        identity != ServerIdentity::SelfSigned ==> identity.hosts_spec().len() == 0,
{
}

/// Chunk data go one way and in any order; edits and transitions go both ways, in order.
pub proof fn law_only_chunks_may_overtake(channel: Channel)
    ensures
        channel.delivery_spec() == Delivery::Unordered <==> channel == Channel::ChunkChannel,
        channel.direction_spec() == Direction::ServerToClient <==> channel == Channel::ChunkChannel,
        channel.direction_spec() == Direction::Bidirectional <==> channel != Channel::ChunkChannel,
{
}

/// A client sends three kinds of message: what it wants to edit, where it wants to go, and that it is
/// ready. All others come from the server. What is about edits, chunks and transitions each goes over
/// the channel for it.
pub proof fn law_messages_go_their_way(message: MessageKind)
    ensures
        message.direction_spec() == Direction::ClientToServer <==> message
            == MessageKind::VoxelEditRequest || message == MessageKind::PlayerMapSwitchRequest
            || message == MessageKind::MapTransitionReady,
        message.direction_spec() != Direction::Bidirectional,
        message.channel_spec() == Channel::ChunkChannel <==> message == MessageKind::ChunkDataSync
            || message == MessageKind::UnloadColumn,
        message.channel_spec() == Channel::MapChannel <==> message
            == MessageKind::PlayerMapSwitchRequest || message == MessageKind::MapTransitionStart
            || message == MessageKind::MapTransitionReady || message
            == MessageKind::MapTransitionEnd,
{
}

} // verus!
