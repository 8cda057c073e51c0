//! Connection settings, and the connection trait that clients implement.
use vstd::prelude::*;
use crate::method::Version;

verus! {

/// A span of time: whole seconds and nanoseconds.
#[derive(Clone, Copy, Debug, PartialEq, Eq, Structural)]
pub struct Duration {
    pub secs: u64,
    pub nanos: u32,
}

impl Duration {
    /// A span of whole seconds.
    pub fn from_secs(secs: u64) -> (r: Duration)
        ensures
            r == (Duration { secs, nanos: 0 }),
    {
        Duration { secs, nanos: 0 }
    }
}

/// An IP address.
#[derive(Clone, Copy, Debug, PartialEq, Eq, Structural)]
pub enum IpAddr {
    V4(u8, u8, u8, u8),
    V6(u16, u16, u16, u16, u16, u16, u16, u16),
}

/// The settings of a connection, as plain values.
pub struct ConnectionSettings<I, C> {
    pub scheme: Seq<char>,
    pub host: Seq<char>,
    pub port: u16,
    pub protocol_version: Version,
    pub connection_timeout: Duration,
    pub identity: Option<I>,
    pub certificate: Option<C>,
    pub skip_cert_verification: bool,
    pub client_bind_addr: IpAddr,
    pub prior_knowledge: bool,
}

/// The settings a new builder starts with: `http`, no host, port 80, HTTP/2,
/// a 30 second timeout, no identity or certificate, certificates checked,
/// bound to `0.0.0.0`, no prior knowledge.
pub open spec fn default_settings<I, C>() -> ConnectionSettings<I, C> {
    ConnectionSettings {
        scheme: "http"@,
        host: Seq::empty(),
        port: 80,
        protocol_version: Version::HTTP_2,
        connection_timeout: Duration { secs: 30, nanos: 0 },
        identity: None,
        certificate: None,
        skip_cert_verification: false,
        client_bind_addr: IpAddr::V4(0, 0, 0, 0),
        prior_knowledge: false,
    }
}

/// One call of a builder's setter, by the setting it makes and its value.
pub enum Setting<I, C> {
    Scheme(Seq<char>),
    Host(Seq<char>),
    Port(u16),
    ProtocolVersion(Version),
    ConnectionTimeout(Duration),
    Identity(Option<I>),
    Certificate(Option<C>),
    SkipCertVerification(bool),
    ClientBindAddr(IpAddr),
    PriorKnowledge(bool),
}

/// The settings after one setter call: its setting replaced, the others kept.
pub open spec fn apply_setting<I, C>(s: ConnectionSettings<I, C>, x: Setting<I, C>) -> ConnectionSettings<I, C> {
    match x {
        Setting::Scheme(v) => ConnectionSettings { scheme: v, ..s },
        Setting::Host(v) => ConnectionSettings { host: v, ..s },
        Setting::Port(v) => ConnectionSettings { port: v, ..s },
        Setting::ProtocolVersion(v) => ConnectionSettings { protocol_version: v, ..s },
        Setting::ConnectionTimeout(v) => ConnectionSettings { connection_timeout: v, ..s },
        Setting::Identity(v) => ConnectionSettings { identity: v, ..s },
        Setting::Certificate(v) => ConnectionSettings { certificate: v, ..s },
        Setting::SkipCertVerification(v) => ConnectionSettings { skip_cert_verification: v, ..s },
        Setting::ClientBindAddr(v) => ConnectionSettings { client_bind_addr: v, ..s },
        Setting::PriorKnowledge(v) => ConnectionSettings { prior_knowledge: v, ..s },
    }
}

/// The settings after a sequence of setter calls, in order.
pub open spec fn apply_settings<I, C>(s: ConnectionSettings<I, C>, xs: Seq<Setting<I, C>>) -> ConnectionSettings<I, C>
    decreases xs.len(),
{
    if xs.len() == 0 {
        s
    } else {
        apply_setting(apply_settings(s, xs.drop_last()), xs.last())
    }
}

/// The position of the last call in `xs` that `f` picks, or -1.
pub open spec fn last_call<I, C>(xs: Seq<Setting<I, C>>, f: spec_fn(Setting<I, C>) -> bool) -> int
    decreases xs.len(),
{
    if xs.len() == 0 {
        -1
    } else if f(xs.last()) {
        xs.len() - 1
    } else {
        last_call(xs.drop_last(), f)
    }
}

/// Each setting as the last call of its setter in `xs` made it, or its
/// default where no call made it.
pub open spec fn last_settings<I, C>(xs: Seq<Setting<I, C>>) -> ConnectionSettings<I, C> {
    let d = default_settings::<I, C>();
    let scheme = last_call(xs, |x: Setting<I, C>| x is Scheme);
    let host = last_call(xs, |x: Setting<I, C>| x is Host);
    let port = last_call(xs, |x: Setting<I, C>| x is Port);
    let version = last_call(xs, |x: Setting<I, C>| x is ProtocolVersion);
    let timeout = last_call(xs, |x: Setting<I, C>| x is ConnectionTimeout);
    let identity = last_call(xs, |x: Setting<I, C>| x is Identity);
    let certificate = last_call(xs, |x: Setting<I, C>| x is Certificate);
    let skip = last_call(xs, |x: Setting<I, C>| x is SkipCertVerification);
    let bind = last_call(xs, |x: Setting<I, C>| x is ClientBindAddr);
    let prior = last_call(xs, |x: Setting<I, C>| x is PriorKnowledge);
    ConnectionSettings {
        scheme: if scheme >= 0 { xs[scheme]->Scheme_0 } else { d.scheme },
        host: if host >= 0 { xs[host]->Host_0 } else { d.host },
        port: if port >= 0 { xs[port]->Port_0 } else { d.port },
        protocol_version: if version >= 0 { xs[version]->ProtocolVersion_0 } else { d.protocol_version },
        connection_timeout: if timeout >= 0 { xs[timeout]->ConnectionTimeout_0 } else { d.connection_timeout },
        identity: if identity >= 0 { xs[identity]->Identity_0 } else { d.identity },
        certificate: if certificate >= 0 { xs[certificate]->Certificate_0 } else { d.certificate },
        skip_cert_verification: if skip >= 0 { xs[skip]->SkipCertVerification_0 } else { d.skip_cert_verification },
        client_bind_addr: if bind >= 0 { xs[bind]->ClientBindAddr_0 } else { d.client_bind_addr },
        prior_knowledge: if prior >= 0 { xs[prior]->PriorKnowledge_0 } else { d.prior_knowledge },
    }
}

/// The view of an optional reference.
pub open spec fn opt_ref<'a, T>(o: Option<&'a T>) -> Option<T> {
    match o {
        Some(t) => Some(*t),
        None => None,
    }
}

/// A builder of connection settings.
pub struct ConnectionConfigBuilder<'a, I, C> {
    scheme: &'a str,
    host: &'a str,
    port: u16,
    protocol_version: Version,
    connection_timeout: Duration,
    identity: Option<&'a I>,
    certificate: Option<&'a C>,
    skip_cert_verification: bool,
    client_bind_addr: IpAddr,
    prior_knowledge: bool,
}

impl<'a, I, C> View for ConnectionConfigBuilder<'a, I, C> {
    type V = ConnectionSettings<I, C>;

    closed spec fn view(&self) -> ConnectionSettings<I, C> {
        ConnectionSettings {
            scheme: self.scheme@,
            host: self.host@,
            port: self.port,
            protocol_version: self.protocol_version,
            connection_timeout: self.connection_timeout,
            identity: opt_ref(self.identity),
            certificate: opt_ref(self.certificate),
            skip_cert_verification: self.skip_cert_verification,
            client_bind_addr: self.client_bind_addr,
            prior_knowledge: self.prior_knowledge,
        }
    }
}

impl<'a, I, C> ConnectionConfigBuilder<'a, I, C> {
    /// A builder with the default settings.
    pub fn new() -> (r: ConnectionConfigBuilder<'a, I, C>)
        ensures
            r@ == default_settings::<I, C>(),
    {
        proof {
            reveal_strlit("");
        }
        let r = ConnectionConfigBuilder {
            scheme: "http",
            host: "",
            port: 80,
            protocol_version: Version::HTTP_2,
            connection_timeout: Duration::from_secs(30),
            identity: None,
            certificate: None,
            skip_cert_verification: false,
            client_bind_addr: IpAddr::V4(0, 0, 0, 0),
            prior_knowledge: false,
        };
        assert(r@.host =~= Seq::<char>::empty());
        r
    }

    /// Sets the scheme.
    pub fn scheme(self, scheme: &'a str) -> (r: ConnectionConfigBuilder<'a, I, C>)
        ensures
            r@ == (ConnectionSettings { scheme: scheme@, ..self@ }),
            r@ == apply_setting(self@, Setting::Scheme(scheme@)),
    {
        ConnectionConfigBuilder { scheme, ..self }
    }

    /// Sets the host.
    pub fn host(self, host: &'a str) -> (r: ConnectionConfigBuilder<'a, I, C>)
        ensures
            r@ == (ConnectionSettings { host: host@, ..self@ }),
            r@ == apply_setting(self@, Setting::Host(host@)),
    {
        ConnectionConfigBuilder { host, ..self }
    }

    /// Sets the port.
    pub fn port(self, port: u16) -> (r: ConnectionConfigBuilder<'a, I, C>)
        ensures
            r@ == (ConnectionSettings { port, ..self@ }),
            r@ == apply_setting(self@, Setting::Port(port)),
    {
        ConnectionConfigBuilder { port, ..self }
    }

    /// Sets the protocol version.
    pub fn protocol_version(self, protocol_version: Version) -> (r: ConnectionConfigBuilder<'a, I, C>)
        ensures
            r@ == (ConnectionSettings { protocol_version, ..self@ }),
            r@ == apply_setting(self@, Setting::ProtocolVersion(protocol_version)),
    {
        ConnectionConfigBuilder { protocol_version, ..self }
    }

    /// Sets the connection timeout.
    pub fn connection_timeout(self, connection_timeout: Duration) -> (r: ConnectionConfigBuilder<'a, I, C>)
        ensures
            r@ == (ConnectionSettings { connection_timeout, ..self@ }),
            r@ == apply_setting(self@, Setting::ConnectionTimeout(connection_timeout)),
    {
        ConnectionConfigBuilder { connection_timeout, ..self }
    }

    /// Sets the client identity.
    pub fn identity(self, identity: Option<&'a I>) -> (r: ConnectionConfigBuilder<'a, I, C>)
        ensures
            r@ == (ConnectionSettings { identity: opt_ref(identity), ..self@ }),
            r@ == apply_setting(self@, Setting::Identity(opt_ref(identity))),
    {
        ConnectionConfigBuilder { identity, ..self }
    }

    /// Sets the certificate.
    pub fn certificate(self, certificate: Option<&'a C>) -> (r: ConnectionConfigBuilder<'a, I, C>)
        ensures
            r@ == (ConnectionSettings { certificate: opt_ref(certificate), ..self@ }),
            r@ == apply_setting(self@, Setting::Certificate(opt_ref(certificate))),
    {
        ConnectionConfigBuilder { certificate, ..self }
    }

    /// Sets whether certificates go unchecked.
    pub fn skip_cert_verification(self, skip_cert_verification: bool) -> (r: ConnectionConfigBuilder<'a, I, C>)
        ensures
            r@ == (ConnectionSettings { skip_cert_verification, ..self@ }),
            r@ == apply_setting(self@, Setting::SkipCertVerification(skip_cert_verification)),
    {
        ConnectionConfigBuilder { skip_cert_verification, ..self }
    }

    /// Sets the local address to bind to.
    pub fn client_bind_addr(self, client_bind_addr: IpAddr) -> (r: ConnectionConfigBuilder<'a, I, C>)
        ensures
            r@ == (ConnectionSettings { client_bind_addr, ..self@ }),
            r@ == apply_setting(self@, Setting::ClientBindAddr(client_bind_addr)),
    {
        ConnectionConfigBuilder { client_bind_addr, ..self }
    }

    /// Sets whether HTTP/2 is spoken without negotiation.
    pub fn prior_knowledge(self, prior_knowledge: bool) -> (r: ConnectionConfigBuilder<'a, I, C>)
        ensures
            r@ == (ConnectionSettings { prior_knowledge, ..self@ }),
            r@ == apply_setting(self@, Setting::PriorKnowledge(prior_knowledge)),
    {
        ConnectionConfigBuilder { prior_knowledge, ..self }
    }

    /// The settings.
    pub fn build(self) -> (r: ConnectionConfig<'a, I, C>)
        ensures
            r@ == self@,
    {
        ConnectionConfig {
            scheme: self.scheme,
            host: self.host,
            port: self.port,
            protocol_version: self.protocol_version,
            connection_timeout: self.connection_timeout,
            identity: self.identity,
            certificate: self.certificate,
            skip_cert_verification: self.skip_cert_verification,
            client_bind_addr: self.client_bind_addr,
            prior_knowledge: self.prior_knowledge,
        }
    }
}

/// The settings of a connection.
pub struct ConnectionConfig<'a, I, C> {
    scheme: &'a str,
    host: &'a str,
    port: u16,
    protocol_version: Version,
    connection_timeout: Duration,
    identity: Option<&'a I>,
    certificate: Option<&'a C>,
    skip_cert_verification: bool,
    client_bind_addr: IpAddr,
    prior_knowledge: bool,
}

impl<'a, I, C> View for ConnectionConfig<'a, I, C> {
    type V = ConnectionSettings<I, C>;

    closed spec fn view(&self) -> ConnectionSettings<I, C> {
        ConnectionSettings {
            scheme: self.scheme@,
            host: self.host@,
            port: self.port,
            protocol_version: self.protocol_version,
            connection_timeout: self.connection_timeout,
            identity: opt_ref(self.identity),
            certificate: opt_ref(self.certificate),
            skip_cert_verification: self.skip_cert_verification,
            client_bind_addr: self.client_bind_addr,
            prior_knowledge: self.prior_knowledge,
        }
    }
}

impl<'a, I, C> ConnectionConfig<'a, I, C> {
    /// A builder with the default settings.
    pub fn builder() -> (r: ConnectionConfigBuilder<'a, I, C>)
        ensures
            r@ == default_settings::<I, C>(),
    {
        ConnectionConfigBuilder::new()
    }

    /// The scheme.
    pub fn scheme(&self) -> (r: &str)
        ensures
            r@ == self@.scheme,
    {
        self.scheme
    }

    /// The host.
    pub fn host(&self) -> (r: &str)
        ensures
            r@ == self@.host,
    {
        self.host
    }

    /// The port.
    pub fn port(&self) -> (r: u16)
        ensures
            r == self@.port,
    {
        self.port
    }

    /// The protocol version.
    pub fn protocol_version(&self) -> (r: &Version)
        ensures
            *r == self@.protocol_version,
    {
        &self.protocol_version
    }

    /// The connection timeout.
    pub fn connection_timeout(&self) -> (r: Duration)
        ensures
            r == self@.connection_timeout,
    {
        self.connection_timeout
    }

    /// The client identity.
    pub fn identity(&self) -> (r: Option<&I>)
        ensures
            opt_ref(r) == self@.identity,
    {
        self.identity
    }

    /// The certificate.
    pub fn certificate(&self) -> (r: Option<&C>)
        ensures
            opt_ref(r) == self@.certificate,
    {
        self.certificate
    }

    /// Whether certificates go unchecked.
    pub fn skip_cert_verification(&self) -> (r: bool)
        ensures
            r == self@.skip_cert_verification,
    {
        self.skip_cert_verification
    }

    /// The local address to bind to.
    pub fn client_bind_addr(&self) -> (r: &IpAddr)
        ensures
            *r == self@.client_bind_addr,
    {
        &self.client_bind_addr
    }

    /// Whether HTTP/2 is spoken without negotiation.
    pub fn prior_knowledge(&self) -> (r: bool)
        ensures
            r == self@.prior_knowledge,
    {
        self.prior_knowledge
    }
}

/// An open connection that hands out the sender of its requests.
pub trait HttpConnection {
    /// The type that sends requests.
    type Sender;

    /// The sender.
    fn sender(&mut self) -> &mut Self::Sender;
}

} // verus!
