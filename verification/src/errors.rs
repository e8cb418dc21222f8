use vstd::prelude::*;

verus! {

/// Why a declaration, a key, or a query was rejected. Each variant names the
/// failed check; variants with fields carry the identifier of the offending
/// entity.
#[derive(Debug, Clone, PartialEq, Eq)]
pub enum ConfigError {
    /// The declaration names no network at all.
    MissingNetwork,
    /// The declared network does not parse as an address with a prefix length.
    MalformedNetwork,
    /// The declaration lists no nodes.
    NoNodes,
    /// The named node's address does not parse as a host address.
    MalformedAddress(String),
    /// The named node reuses the address of an earlier node.
    DuplicateAddress(String),
    /// The named node's address lies outside the declared network (second
    /// field: the network as declared).
    AddressOutOfNetwork(String, String),
    /// The named node reuses the private key of an earlier node.
    DuplicatePrivateKey(String),
    /// A route of the named node points `via` itself or a node that does not
    /// exist (second field: the `via` value).
    UnknownRouteTarget(String, String),
    /// The named node's private key is not the base64 encoding of 32 bytes.
    InvalidKeyEncoding(String),
    /// The requested node is not declared.
    NodeNotFound(String),
    /// The requested output format is not recognised (field: the request).
    InvalidFormat(String),
}

/// The mathematical shape of a `ConfigError`: the same variants over
/// character sequences.
pub ghost enum ConfigErrorView {
    MissingNetwork,
    MalformedNetwork,
    NoNodes,
    MalformedAddress(Seq<char>),
    DuplicateAddress(Seq<char>),
    AddressOutOfNetwork(Seq<char>, Seq<char>),
    DuplicatePrivateKey(Seq<char>),
    UnknownRouteTarget(Seq<char>, Seq<char>),
    InvalidKeyEncoding(Seq<char>),
    NodeNotFound(Seq<char>),
    InvalidFormat(Seq<char>),
}

impl View for ConfigError {
    type V = ConfigErrorView;

    open spec fn view(&self) -> ConfigErrorView {
        match self {
            ConfigError::MissingNetwork => ConfigErrorView::MissingNetwork,
            ConfigError::MalformedNetwork => ConfigErrorView::MalformedNetwork,
            ConfigError::NoNodes => ConfigErrorView::NoNodes,
            ConfigError::MalformedAddress(n) => ConfigErrorView::MalformedAddress(n@),
            ConfigError::DuplicateAddress(n) => ConfigErrorView::DuplicateAddress(n@),
            ConfigError::AddressOutOfNetwork(n, c) => ConfigErrorView::AddressOutOfNetwork(n@, c@),
            ConfigError::DuplicatePrivateKey(n) => ConfigErrorView::DuplicatePrivateKey(n@),
            ConfigError::UnknownRouteTarget(n, v) => ConfigErrorView::UnknownRouteTarget(n@, v@),
            ConfigError::InvalidKeyEncoding(n) => ConfigErrorView::InvalidKeyEncoding(n@),
            ConfigError::NodeNotFound(n) => ConfigErrorView::NodeNotFound(n@),
            ConfigError::InvalidFormat(s) => ConfigErrorView::InvalidFormat(s@),
        }
    }
}

} // verus!
