//! The errors of each layer, and the text that each one shows.

use vstd::prelude::*;

use crate::text::{decimal, hexadecimal, push_decimal, push_hexadecimal, quote, quoted};

verus! {

/// A configuration that cannot be used.
#[derive(Clone, Debug, PartialEq, Eq)]
pub enum ConfigError {
    InvalidValue { name: &'static str, value: String, expected: &'static str },
    InvalidCombination(String),
}

/// A configuration error with its texts as sequences of characters.
pub enum ConfigErrorView {
    InvalidValue { name: Seq<char>, value: Seq<char>, expected: Seq<char> },
    InvalidCombination(Seq<char>),
}

impl View for ConfigError {
    type V = ConfigErrorView;

    open spec fn view(&self) -> ConfigErrorView {
        match self {
            ConfigError::InvalidValue { name, value, expected } => ConfigErrorView::InvalidValue {
                name: name@,
                value: value@,
                expected: expected@,
            },
            ConfigError::InvalidCombination(message) => ConfigErrorView::InvalidCombination(
                message@,
            ),
        }
    }
}

impl ConfigErrorView {
    /// The text of the error.
    pub open spec fn text(self) -> Seq<char> {
        match self {
            ConfigErrorView::InvalidValue { name, value, expected } => name + " must be a valid "@
                + expected + ", got "@ + quoted(value),
            ConfigErrorView::InvalidCombination(message) => message,
        }
    }
}

impl ConfigError {
    /// The text of the error.
    pub fn message(&self) -> (message: String)
        ensures
            message@ == self@.text(),
    {
        match self {
            ConfigError::InvalidValue { name, value, expected } => {
                let mut message = String::new();
                message.push_str(name);
                message.push_str(" must be a valid ");
                message.push_str(expected);
                message.push_str(", got ");
                message.push_str(quote(value.as_str()).as_str());
                assert(message@ =~= self@.text());
                message
            },
            ConfigError::InvalidCombination(text) => text.clone(),
        }
    }
}

/// A request, a response or a frame that breaks the wire protocol.
#[derive(Clone, Debug, PartialEq, Eq)]
pub enum ProtocolError {
    FrameTooSmall { actual: usize, minimum: usize },
    FrameTooLarge { actual: usize, maximum: usize },
    UnsupportedVersion(u8),
    InvalidOpcode(u8),
    Truncated,
    InvalidPayload(&'static str),
    KeyTooLarge { actual: usize, maximum: usize },
    ValueTooLarge { actual: usize, maximum: usize },
    IntegerOverflow,
    RedirectLoop(String),
    TooManyRedirects { maximum: usize },
}

impl ProtocolError {
    /// The text of the error.
    pub open spec fn text(self) -> Seq<char> {
        match self {
            ProtocolError::FrameTooSmall { actual, minimum } => "frame length "@ + decimal(
                actual as nat,
            ) + " is below the minimum "@ + decimal(minimum as nat),
            ProtocolError::FrameTooLarge { actual, maximum } => "frame length "@ + decimal(
                actual as nat,
            ) + " exceeds configured maximum "@ + decimal(maximum as nat),
            ProtocolError::UnsupportedVersion(version) => "unsupported protocol version "@
                + decimal(version as nat),
            ProtocolError::InvalidOpcode(code) => "invalid opcode 0x"@ + hexadecimal(
                code as nat,
                2,
            ),
            ProtocolError::Truncated => "truncated frame"@,
            ProtocolError::InvalidPayload(reason) => "invalid payload: "@ + reason@,
            ProtocolError::KeyTooLarge { actual, maximum } => "key length "@ + decimal(
                actual as nat,
            ) + " exceeds configured maximum "@ + decimal(maximum as nat),
            ProtocolError::ValueTooLarge { actual, maximum } => "value length "@ + decimal(
                actual as nat,
            ) + " exceeds configured maximum "@ + decimal(maximum as nat),
            ProtocolError::IntegerOverflow => "integer overflow while processing untrusted input"@,
            ProtocolError::RedirectLoop(address) => "redirect loop through "@ + address@,
            ProtocolError::TooManyRedirects { maximum } => "more than "@ + decimal(maximum as nat)
                + " redirects"@,
        }
    }

    /// The text of the error.
    pub fn message(&self) -> (message: String)
        ensures
            message@ == self.text(),
    {
        let mut message = String::new();
        match self {
            ProtocolError::FrameTooSmall { actual, minimum } => {
                message.push_str("frame length ");
                push_decimal(&mut message, *actual as u64);
                message.push_str(" is below the minimum ");
                push_decimal(&mut message, *minimum as u64);
            },
            ProtocolError::FrameTooLarge { actual, maximum } => {
                message.push_str("frame length ");
                push_decimal(&mut message, *actual as u64);
                message.push_str(" exceeds configured maximum ");
                push_decimal(&mut message, *maximum as u64);
            },
            ProtocolError::UnsupportedVersion(version) => {
                message.push_str("unsupported protocol version ");
                push_decimal(&mut message, *version as u64);
            },
            ProtocolError::InvalidOpcode(code) => {
                message.push_str("invalid opcode 0x");
                push_hexadecimal(&mut message, *code as u128, 2);
            },
            ProtocolError::Truncated => message.push_str("truncated frame"),
            ProtocolError::InvalidPayload(reason) => {
                message.push_str("invalid payload: ");
                message.push_str(reason);
            },
            ProtocolError::KeyTooLarge { actual, maximum } => {
                message.push_str("key length ");
                push_decimal(&mut message, *actual as u64);
                message.push_str(" exceeds configured maximum ");
                push_decimal(&mut message, *maximum as u64);
            },
            ProtocolError::ValueTooLarge { actual, maximum } => {
                message.push_str("value length ");
                push_decimal(&mut message, *actual as u64);
                message.push_str(" exceeds configured maximum ");
                push_decimal(&mut message, *maximum as u64);
            },
            ProtocolError::IntegerOverflow => {
                message.push_str("integer overflow while processing untrusted input");
            },
            ProtocolError::RedirectLoop(address) => {
                message.push_str("redirect loop through ");
                message.push_str(address.as_str());
            },
            ProtocolError::TooManyRedirects { maximum } => {
                message.push_str("more than ");
                push_decimal(&mut message, *maximum as u64);
                message.push_str(" redirects");
            },
        }
        assert(message@ =~= self.text());
        message
    }
}

/// A store operation that cannot be carried out.
#[derive(Clone, Copy, Debug, PartialEq, Eq)]
pub enum StoreError {
    InvalidShardCount,
    LockPoisoned,
    CapacityOverflow,
    InvalidTtl,
    InvalidExpiration,
}

impl StoreError {
    /// The text of the error.
    pub open spec fn text(self) -> Seq<char> {
        match self {
            StoreError::InvalidShardCount => "shard count must be greater than zero"@,
            StoreError::LockPoisoned => "store shard lock is poisoned"@,
            StoreError::CapacityOverflow => "store size exceeded the supported range"@,
            StoreError::InvalidTtl => "TTL must be greater than zero"@,
            StoreError::InvalidExpiration =>
                "expiration timestamp is outside the supported range"@,
        }
    }

    /// The text of the error.
    pub fn message(&self) -> (message: String)
        ensures
            message@ == self.text(),
    {
        let message: &'static str = match self {
            StoreError::InvalidShardCount => "shard count must be greater than zero",
            StoreError::LockPoisoned => "store shard lock is poisoned",
            StoreError::CapacityOverflow => "store size exceeded the supported range",
            StoreError::InvalidTtl => "TTL must be greater than zero",
            StoreError::InvalidExpiration => "expiration timestamp is outside the supported range",
        };
        message.to_owned()
    }
}

/// A log, a snapshot or a metadata file that cannot be used.
#[derive(Clone, Debug, PartialEq, Eq)]
pub enum PersistenceError {
    InvalidHeader,
    UnsupportedVersion(u8),
    InvalidRecordType(u8),
    InvalidRecordLength,
    ChecksumMismatch { offset: u64 },
    Corruption { offset: u64, reason: &'static str },
    InvalidSnapshotHeader,
    SnapshotCorruption { entry: u64, reason: &'static str },
    InvalidMetadata(&'static str),
    ClockBeforeEpoch,
    Store(StoreError),
}

impl PersistenceError {
    /// The text of the error.
    pub open spec fn text(self) -> Seq<char> {
        match self {
            PersistenceError::InvalidHeader => "invalid WAL header"@,
            PersistenceError::UnsupportedVersion(version) => "unsupported WAL version "@ + decimal(
                version as nat,
            ),
            PersistenceError::InvalidRecordType(code) => "invalid WAL record type 0x"@
                + hexadecimal(code as nat, 2),
            PersistenceError::InvalidRecordLength =>
                "WAL record length is invalid or exceeds configured limits"@,
            PersistenceError::ChecksumMismatch { offset } => "WAL checksum mismatch at byte offset "@
                + decimal(offset as nat),
            PersistenceError::Corruption { offset, reason } => "WAL corruption at byte offset "@
                + decimal(offset as nat) + ": "@ + reason@,
            PersistenceError::InvalidSnapshotHeader => "invalid snapshot header"@,
            PersistenceError::SnapshotCorruption { entry, reason } =>
                "snapshot corruption at entry "@ + decimal(entry as nat) + ": "@ + reason@,
            PersistenceError::InvalidMetadata(reason) => "invalid metadata: "@ + reason@,
            PersistenceError::ClockBeforeEpoch => "system clock is before the Unix epoch"@,
            PersistenceError::Store(error) => "store recovery failed: "@ + error.text(),
        }
    }

    /// The text of the error.
    pub fn message(&self) -> (message: String)
        ensures
            message@ == self.text(),
    {
        let mut message = String::new();
        match self {
            PersistenceError::InvalidHeader => message.push_str("invalid WAL header"),
            PersistenceError::UnsupportedVersion(version) => {
                message.push_str("unsupported WAL version ");
                push_decimal(&mut message, *version as u64);
            },
            PersistenceError::InvalidRecordType(code) => {
                message.push_str("invalid WAL record type 0x");
                push_hexadecimal(&mut message, *code as u128, 2);
            },
            PersistenceError::InvalidRecordLength => {
                message.push_str("WAL record length is invalid or exceeds configured limits");
            },
            PersistenceError::ChecksumMismatch { offset } => {
                message.push_str("WAL checksum mismatch at byte offset ");
                push_decimal(&mut message, *offset);
            },
            PersistenceError::Corruption { offset, reason } => {
                message.push_str("WAL corruption at byte offset ");
                push_decimal(&mut message, *offset);
                message.push_str(": ");
                message.push_str(reason);
            },
            PersistenceError::InvalidSnapshotHeader => message.push_str("invalid snapshot header"),
            PersistenceError::SnapshotCorruption { entry, reason } => {
                message.push_str("snapshot corruption at entry ");
                push_decimal(&mut message, *entry);
                message.push_str(": ");
                message.push_str(reason);
            },
            PersistenceError::InvalidMetadata(reason) => {
                message.push_str("invalid metadata: ");
                message.push_str(reason);
            },
            PersistenceError::ClockBeforeEpoch => {
                message.push_str("system clock is before the Unix epoch");
            },
            PersistenceError::Store(error) => {
                message.push_str("store recovery failed: ");
                message.push_str(error.message().as_str());
            },
        }
        assert(message@ =~= self.text());
        message
    }
}

/// A replication exchange that cannot go on.
#[derive(Clone, Debug, PartialEq, Eq)]
pub enum ReplicationError {
    InvalidProtocol(&'static str),
    PayloadTooLarge { actual: u64, maximum: usize },
    Persistence(PersistenceError),
}

impl ReplicationError {
    /// The text of the error.
    pub open spec fn text(self) -> Seq<char> {
        match self {
            ReplicationError::InvalidProtocol(reason) => "invalid replication protocol: "@
                + reason@,
            ReplicationError::PayloadTooLarge { actual, maximum } => "replication payload of "@
                + decimal(actual as nat) + " bytes exceeds configured maximum "@ + decimal(
                maximum as nat,
            ),
            ReplicationError::Persistence(error) => error.text(),
        }
    }

    /// The text of the error.
    pub fn message(&self) -> (message: String)
        ensures
            message@ == self.text(),
    {
        let mut message = String::new();
        match self {
            ReplicationError::InvalidProtocol(reason) => {
                message.push_str("invalid replication protocol: ");
                message.push_str(reason);
            },
            ReplicationError::PayloadTooLarge { actual, maximum } => {
                message.push_str("replication payload of ");
                push_decimal(&mut message, *actual);
                message.push_str(" bytes exceeds configured maximum ");
                push_decimal(&mut message, *maximum as u64);
            },
            ReplicationError::Persistence(error) => {
                return error.message();
            },
        }
        assert(message@ =~= self.text());
        message
    }
}

/// Any error of the server.
#[derive(Clone, Debug, PartialEq, Eq)]
pub enum ForgeError {
    Config(ConfigError),
    Protocol(ProtocolError),
    Store(StoreError),
    Persistence(PersistenceError),
    Replication(ReplicationError),
}

impl ForgeError {
    /// The text of the error: that of the error inside.
    pub open spec fn text(self) -> Seq<char> {
        match self {
            ForgeError::Config(error) => error@.text(),
            ForgeError::Protocol(error) => error.text(),
            ForgeError::Store(error) => error.text(),
            ForgeError::Persistence(error) => error.text(),
            ForgeError::Replication(error) => error.text(),
        }
    }

    /// The text of the error: that of the error inside.
    pub fn message(&self) -> (message: String)
        ensures
            message@ == self.text(),
    {
        match self {
            ForgeError::Config(error) => error.message(),
            ForgeError::Protocol(error) => error.message(),
            ForgeError::Store(error) => error.message(),
            ForgeError::Persistence(error) => error.message(),
            ForgeError::Replication(error) => error.message(),
        }
    }
}

/// A message about a size names the size first and then the bound that it breaks, in decimal. One
/// about a code gives it in hexadecimal, and one about an address gives the address.
pub proof fn law_protocol_messages_carry_their_parts(
    size: usize,
    bound: usize,
    code: u8,
    reason: &'static str,
    address: String,
)
    ensures
        ({
            let (given, limit) = (decimal(size as nat), decimal(bound as nat));
            let over = given + " exceeds configured maximum "@ + limit;
            &&& (ProtocolError::FrameTooSmall { actual: size, minimum: bound }).text()
                == "frame length "@ + given + " is below the minimum "@ + limit
            &&& (ProtocolError::FrameTooLarge { actual: size, maximum: bound }).text()
                == "frame length "@ + over
            &&& (ProtocolError::KeyTooLarge { actual: size, maximum: bound }).text()
                == "key length "@ + over
            &&& (ProtocolError::ValueTooLarge { actual: size, maximum: bound }).text()
                == "value length "@ + over
            &&& (ProtocolError::TooManyRedirects { maximum: bound }).text() == "more than "@ + limit
                + " redirects"@
            &&& ProtocolError::UnsupportedVersion(code).text() == "unsupported protocol version "@
                + decimal(code as nat)
            &&& ProtocolError::InvalidOpcode(code).text() == "invalid opcode 0x"@ + hexadecimal(
                code as nat,
                2,
            )
            &&& ProtocolError::InvalidPayload(reason).text() == "invalid payload: "@ + reason@
            &&& ProtocolError::RedirectLoop(address).text() == "redirect loop through "@ + address@
        }),
{
    let (given, limit) = (decimal(size as nat), decimal(bound as nat));
    let over = given + " exceeds configured maximum "@ + limit;
    assert((ProtocolError::FrameTooLarge { actual: size, maximum: bound }).text()
        =~= "frame length "@ + over);
    assert((ProtocolError::KeyTooLarge { actual: size, maximum: bound }).text() =~= "key length "@
        + over);
    assert((ProtocolError::ValueTooLarge { actual: size, maximum: bound }).text()
        =~= "value length "@ + over);
}

/// A message about a file names the place where something is wrong, in decimal, and then what is.
/// Errors that pass on another one show its message, whichever layer they belong to.
pub proof fn law_storage_messages_carry_their_parts(
    place: u64,
    code: u8,
    bound: usize,
    reason: &'static str,
    store: StoreError,
    inner: PersistenceError,
)
    ensures
        ({
            let at = decimal(place as nat);
            &&& (PersistenceError::ChecksumMismatch { offset: place }).text()
                == "WAL checksum mismatch at byte offset "@ + at
            &&& (PersistenceError::Corruption { offset: place, reason }).text()
                == "WAL corruption at byte offset "@ + at + ": "@ + reason@
            &&& (PersistenceError::SnapshotCorruption { entry: place, reason }).text()
                == "snapshot corruption at entry "@ + at + ": "@ + reason@
            &&& PersistenceError::UnsupportedVersion(code).text() == "unsupported WAL version "@
                + decimal(code as nat)
            &&& PersistenceError::InvalidRecordType(code).text() == "invalid WAL record type 0x"@
                + hexadecimal(code as nat, 2)
            &&& PersistenceError::InvalidMetadata(reason).text() == "invalid metadata: "@ + reason@
            &&& PersistenceError::Store(store).text() == "store recovery failed: "@ + store.text()
            &&& ReplicationError::InvalidProtocol(reason).text()
                == "invalid replication protocol: "@ + reason@
            &&& (ReplicationError::PayloadTooLarge { actual: place, maximum: bound }).text()
                == "replication payload of "@ + at + " bytes exceeds configured maximum "@
                + decimal(bound as nat)
            &&& ReplicationError::Persistence(inner).text() == inner.text()
            &&& ForgeError::Store(store).text() == store.text()
            &&& ForgeError::Persistence(inner).text() == inner.text()
            &&& ForgeError::Replication(ReplicationError::Persistence(inner)).text()
                == inner.text()
        }),
{
}

/// A complaint about a setting names the setting, what it should be, and what it was, in quotes.
pub proof fn law_complaints_carry_their_parts(
    name: Seq<char>,
    value: Seq<char>,
    expected: Seq<char>,
)
    ensures
        (ConfigErrorView::InvalidValue { name, value, expected }).text() == name
            + " must be a valid "@ + expected + ", got "@ + quoted(value),
        ConfigErrorView::InvalidCombination(value).text() == value,
{
}

} // verus!
