//! Resource identities and their resolution to a backend kind.
use vstd::prelude::*;

verus! {

/// The provider variants of the key-value capability, legacy versioned aliases included.
#[derive(Clone, Copy, Debug, PartialEq, Eq, Structural)]
pub enum KeyvalueResource {
    Filesystem,
    V1Filesystem,
    Azblob,
    V1Azblob,
    AwsDynamoDb,
    V1AwsDynamoDb,
    Redis,
    V1Redis,
}

/// A resource identity: which capability, and for key-value, which provider.
#[derive(Clone, Copy, Debug, PartialEq, Eq, Structural)]
pub enum Resource {
    Keyvalue(KeyvalueResource),
    Messaging,
    Configs,
    DistributedLocking,
    HttpServer,
    HttpClient,
    Sql,
}

/// The backend kinds a key-value session can be dispatched to.
#[derive(Clone, Copy, Debug, PartialEq, Eq, Structural)]
pub enum KeyvalueImplementors {
    Filesystem,
    AzBlob,
    AwsDynamoDb,
    Redis,
}

/// Which backend kinds this host has enabled.
#[derive(Clone, Copy, Debug, PartialEq, Eq, Structural)]
pub struct EnabledBackends {
    pub filesystem: bool,
    pub azblob: bool,
    pub awsdynamodb: bool,
    pub redis: bool,
}

/// The current provider variant that a key-value resource stands for, versioned aliases folded in.
pub open spec fn provider_of(r: KeyvalueResource) -> KeyvalueImplementors {
    match r {
        KeyvalueResource::Filesystem | KeyvalueResource::V1Filesystem => KeyvalueImplementors::Filesystem,
        KeyvalueResource::Azblob | KeyvalueResource::V1Azblob => KeyvalueImplementors::AzBlob,
        KeyvalueResource::AwsDynamoDb | KeyvalueResource::V1AwsDynamoDb => KeyvalueImplementors::AwsDynamoDb,
        KeyvalueResource::Redis | KeyvalueResource::V1Redis => KeyvalueImplementors::Redis,
    }
}

impl EnabledBackends {
    /// Every backend kind enabled.
    pub fn all() -> (r: Self)
        ensures
            r.filesystem && r.azblob && r.awsdynamodb && r.redis,
    {
        EnabledBackends { filesystem: true, azblob: true, awsdynamodb: true, redis: true }
    }

    pub open spec fn allows(self, k: KeyvalueImplementors) -> bool {
        match k {
            KeyvalueImplementors::Filesystem => self.filesystem,
            KeyvalueImplementors::AzBlob => self.azblob,
            KeyvalueImplementors::AwsDynamoDb => self.awsdynamodb,
            KeyvalueImplementors::Redis => self.redis,
        }
    }

    /// Whether backend kind `k` is enabled.
    pub fn is_enabled(&self, k: KeyvalueImplementors) -> (r: bool)
        ensures
            r == self.allows(k),
    {
        match k {
            KeyvalueImplementors::Filesystem => self.filesystem,
            KeyvalueImplementors::AzBlob => self.azblob,
            KeyvalueImplementors::AwsDynamoDb => self.awsdynamodb,
            KeyvalueImplementors::Redis => self.redis,
        }
    }
}

/// The backend kind that resource `r` resolves to under `enabled`, if any.
pub open spec fn resolve(r: Resource, enabled: EnabledBackends) -> Option<KeyvalueImplementors> {
    match r {
        Resource::Keyvalue(kv) => if enabled.allows(provider_of(kv)) {
            Some(provider_of(kv))
        } else {
            None
        },
        _ => None,
    }
}

impl KeyvalueImplementors {
    /// Resolves a resource identity to an enabled backend kind; `None` where the
    /// identity is not a key-value provider, or its provider is not enabled.
    pub fn from_resource(r: Resource, enabled: &EnabledBackends) -> (k: Option<KeyvalueImplementors>)
        ensures
            k == resolve(r, *enabled),
    {
        match r {
            Resource::Keyvalue(kv) => {
                let p = match kv {
                    KeyvalueResource::Filesystem | KeyvalueResource::V1Filesystem => KeyvalueImplementors::Filesystem,
                    KeyvalueResource::Azblob | KeyvalueResource::V1Azblob => KeyvalueImplementors::AzBlob,
                    KeyvalueResource::AwsDynamoDb | KeyvalueResource::V1AwsDynamoDb => KeyvalueImplementors::AwsDynamoDb,
                    KeyvalueResource::Redis | KeyvalueResource::V1Redis => KeyvalueImplementors::Redis,
                };
                if enabled.is_enabled(p) {
                    Some(p)
                } else {
                    None
                }
            },
            _ => None,
        }
    }
}

/// The identity string of a resource, as configuration files name it.
pub open spec fn identity_of(r: Resource) -> Seq<char> {
    match r {
        Resource::Keyvalue(KeyvalueResource::Filesystem) => "keyvalue.filesystem"@,
        Resource::Keyvalue(KeyvalueResource::V1Filesystem) => "kv.filesystem"@,
        Resource::Keyvalue(KeyvalueResource::Azblob) => "keyvalue.azblob"@,
        Resource::Keyvalue(KeyvalueResource::V1Azblob) => "kv.azblob"@,
        Resource::Keyvalue(KeyvalueResource::AwsDynamoDb) => "keyvalue.awsdynamodb"@,
        Resource::Keyvalue(KeyvalueResource::V1AwsDynamoDb) => "kv.awsdynamodb"@,
        Resource::Keyvalue(KeyvalueResource::Redis) => "keyvalue.redis"@,
        Resource::Keyvalue(KeyvalueResource::V1Redis) => "kv.redis"@,
        Resource::Messaging => "messaging"@,
        Resource::Configs => "configs"@,
        Resource::DistributedLocking => "distributed_locking"@,
        Resource::HttpServer => "http-server"@,
        Resource::HttpClient => "http-client"@,
        Resource::Sql => "sql"@,
    }
}

impl Resource {
    /// The identity string of this resource.
    pub fn identity(&self) -> (s: String)
        ensures
            s@ == identity_of(*self),
    {
        let t: &str = match self {
            Resource::Keyvalue(KeyvalueResource::Filesystem) => "keyvalue.filesystem",
            Resource::Keyvalue(KeyvalueResource::V1Filesystem) => "kv.filesystem",
            Resource::Keyvalue(KeyvalueResource::Azblob) => "keyvalue.azblob",
            Resource::Keyvalue(KeyvalueResource::V1Azblob) => "kv.azblob",
            Resource::Keyvalue(KeyvalueResource::AwsDynamoDb) => "keyvalue.awsdynamodb",
            Resource::Keyvalue(KeyvalueResource::V1AwsDynamoDb) => "kv.awsdynamodb",
            Resource::Keyvalue(KeyvalueResource::Redis) => "keyvalue.redis",
            Resource::Keyvalue(KeyvalueResource::V1Redis) => "kv.redis",
            Resource::Messaging => "messaging",
            Resource::Configs => "configs",
            Resource::DistributedLocking => "distributed_locking",
            Resource::HttpServer => "http-server",
            Resource::HttpClient => "http-client",
            Resource::Sql => "sql",
        };
        t.to_owned()
    }
}

} // verus!
