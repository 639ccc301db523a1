//! The settings of a client.
use crate::random;
use vstd::prelude::*;

verus! {

/// How much the client says about what it does.
#[derive(Copy, Clone, Debug, PartialEq, Eq, Structural)]
pub enum LogLevel {
    /// Everything.
    Trace,
    /// What helps to find a fault.
    Debug,
    /// What a user may want to know.
    Info,
    /// What may be wrong.
    Warn,
    /// What is wrong.
    Error,
}

/// The word for a level, where the level that is not given is `Info`.
pub open spec fn word_for(level: Option<LogLevel>) -> Seq<char> {
    match level {
        Some(LogLevel::Trace) => "trace"@,
        Some(LogLevel::Debug) => "debug"@,
        Some(LogLevel::Warn) => "warn"@,
        Some(LogLevel::Error) => "error"@,
        _ => "info"@,
    }
}

/// The word for the level of the log.
pub fn filter_level(level: Option<LogLevel>) -> (word: &'static str)
    ensures
        word@ == word_for(level),
{
    match level {
        Some(LogLevel::Trace) => "trace",
        Some(LogLevel::Debug) => "debug",
        Some(LogLevel::Info) => "info",
        Some(LogLevel::Warn) => "warn",
        Some(LogLevel::Error) => "error",
        None => "info",
    }
}

/// What the name of every client of this program starts with: `-`, the letters of the program, three
/// digits of its version, `0` and `-`.
pub open spec fn client_prefix() -> Seq<u8> {
    seq![0x2du8, 0x52u8, 0x53u8, 0x30u8, 0x31u8, 0x30u8, 0x30u8, 0x2du8]
}

/// The major version of the program.
pub const CLIENT_VERSION_MAJOR: u8 = 0;

/// The minor version of the program.
pub const CLIENT_VERSION_MINOR: u8 = 1;

/// The patch version of the program.
pub const CLIENT_VERSION_PATCH: u8 = 0;

/// The name of a client, given the bytes that set it apart from others.
pub fn peer_id_with(suffix: [u8; 12]) -> (peer_id: [u8; 20])
    ensures
        peer_id@ == client_prefix() + suffix@,
{
    let mut peer_id = [0u8; 20];
    peer_id[0] = 0x2d;
    peer_id[1] = 0x52;
    peer_id[2] = 0x53;
    peer_id[3] = 0x30 + CLIENT_VERSION_MAJOR;
    peer_id[4] = 0x30 + CLIENT_VERSION_MINOR;
    peer_id[5] = 0x30 + CLIENT_VERSION_PATCH;
    peer_id[6] = 0x30;
    peer_id[7] = 0x2d;
    let mut i: usize = 0;
    while i < 12
        invariant
            i <= 12,
            peer_id@.len() == 20,
            suffix@.len() == 12,
            peer_id@.take(8) =~= client_prefix(),
            forall|k: int| 0 <= k < i ==> peer_id@[8 + k] == #[trigger] suffix@[k],
        decreases 12 - i,
    {
        let ghost before = peer_id@;
        peer_id[8 + i] = suffix[i];
        assert(peer_id@.take(8) =~= before.take(8));
        i = i + 1;
    }
    assert(peer_id@ =~= peer_id@.take(8) + suffix@);
    peer_id
}

/// A name for a client. What sets it apart from others is left to chance.
pub fn new_peer_id() -> (peer_id: [u8; 20])
    ensures
        peer_id@.take(8) == client_prefix(),
{
    let peer_id = peer_id_with(random::twelve_bytes());
    assert(peer_id@.take(8) =~= client_prefix());
    peer_id
}

/// Each level has its own word, and where none is given the word is that of `Info`.
pub proof fn words_tell_levels_apart(a: LogLevel, b: LogLevel)
    ensures
        word_for(Some(a)) == word_for(Some(b)) <==> a == b,
        word_for(None) == word_for(Some(LogLevel::Info)),
        word_for(Some(a)) == (if a == LogLevel::Trace {
            "trace"@
        } else if a == LogLevel::Debug {
            "debug"@
        } else if a == LogLevel::Info {
            "info"@
        } else if a == LogLevel::Warn {
            "warn"@
        } else {
            "error"@
        }),
{
    reveal_strlit("trace");
    reveal_strlit("debug");
    reveal_strlit("info");
    reveal_strlit("warn");
    reveal_strlit("error");
    assert("trace"@[0] == 't' && "debug"@[0] == 'd' && "error"@[0] == 'e');
    assert("info"@[0] == 'i' && "warn"@[0] == 'w');
}

/// The name of a client begins with `-RS`, the digits of the version of the program, `0` and `-`.
pub proof fn names_carry_the_version()
    ensures
        client_prefix().len() == 8,
        client_prefix()[0] == '-' as u8,
        client_prefix()[1] == 'R' as u8,
        client_prefix()[2] == 'S' as u8,
        client_prefix()[3] == '0' as u8 + CLIENT_VERSION_MAJOR,
        client_prefix()[4] == '0' as u8 + CLIENT_VERSION_MINOR,
        client_prefix()[5] == '0' as u8 + CLIENT_VERSION_PATCH,
        client_prefix()[6] == '0' as u8,
        client_prefix()[7] == '-' as u8,
{
}

} // verus!
