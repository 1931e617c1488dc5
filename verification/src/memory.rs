//! The memory-examination engine: validating a textual address against the
//! target's mapped regions, one bounded cross-process read per refresh
//! cycle, the status header and snapshot text, and the transition relation
//! of the cancellable live-refresh loop.

use vstd::prelude::*;
use vstd::string::*;

use crate::process_info::{MemoryMap, ProcessInfo};
use crate::render::{render, render_text};
use crate::text::{all_hex_digits, dec_i32, dec_int_seq, dec_seq, dec_usize, hex_min, hex_min_seq,
    hex_value, is_hex_digit, parse_hex_range, valid_hex_for_usize};
use crate::{bytes_to_request, spec_bytes_to_request};

verus! {

/// Why a textual address was rejected.
#[derive(Clone, Copy, Debug, PartialEq, Eq, Structural)]
pub enum ParseAddressError {
    /// The text is not a hexadecimal numeral naming an address.
    MalformedAddress,
    /// The text parses, but no mapped region contains the address.
    AddressNotMapped,
}

impl ParseAddressError {
    /// The operator-visible message for this error.
    pub open spec fn message(self) -> Seq<char> {
        match self {
            ParseAddressError::MalformedAddress => "Failed to parse address"@,
            ParseAddressError::AddressNotMapped => "Address not in process map"@,
        }
    }

    /// Renders the operator-visible message.
    pub fn to_text(&self) -> (r: String)
        ensures
            r@ == self.message(),
    {
        match self {
            ParseAddressError::MalformedAddress => "Failed to parse address".to_owned(),
            ParseAddressError::AddressNotMapped => "Address not in process map".to_owned(),
        }
    }
}

/// The address text with its optional "0x" marker stripped; text without
/// the marker is read as hexadecimal all the same.
pub open spec fn stripped(s: Seq<char>) -> Seq<char> {
    if s.len() >= 2 && s[0] == '0' && s[1] == 'x' {
        s.skip(2)
    } else {
        s
    }
}

/// The address a textual input names.
pub open spec fn addr_value(s: Seq<char>) -> nat {
    hex_value(stripped(s))
}

/// The input names an address: after stripping the optional marker it is a
/// non-empty hexadecimal numeral whose value fits an address.
pub open spec fn valid_addr_text(s: Seq<char>) -> bool {
    valid_hex_for_usize(stripped(s))
}

/// The region holds the address: at its start or beyond, before its end.
pub open spec fn region_contains(m: MemoryMap, a: nat) -> bool {
    m.start <= a < m.end
}

/// Some region of the list holds the address.
pub open spec fn some_region_contains(maps: Seq<MemoryMap>, a: nat) -> bool {
    exists|i: int| 0 <= i < maps.len() && region_contains(#[trigger] maps[i], a)
}

/// Parses a textual address and validates it against the target's mapped
/// regions: it succeeds exactly when the text names an address and some
/// region contains that address.
pub fn parse_address(address: &str, proc_info: &ProcessInfo) -> (r: Result<
    usize,
    ParseAddressError,
>)
    ensures
        (r is Ok) <==> (valid_addr_text(address@) && some_region_contains(
            proc_info.maps@,
            addr_value(address@),
        )),
        r matches Ok(v) ==> v as nat == addr_value(address@),
        (r == Err::<usize, ParseAddressError>(ParseAddressError::MalformedAddress)) <==> !valid_addr_text(address@),
        (r == Err::<usize, ParseAddressError>(ParseAddressError::AddressNotMapped)) <==> (
        valid_addr_text(address@) && !some_region_contains(
            proc_info.maps@,
            addr_value(address@),
        )),
{
    let n = address.unicode_len();
    let from: usize = if n >= 2 && address.get_char(0) == '0' && address.get_char(1) == 'x' {
        2
    } else {
        0
    };
    proof {
        assert(address@.subrange(from as int, n as int) =~= stripped(address@));
    }
    let parsed = match parse_hex_range(address, from, n) {
        Some(v) => v,
        None => {
            return Err(ParseAddressError::MalformedAddress);
        },
    };
    let mut i: usize = 0;
    while i < proc_info.maps.len()
        invariant
            valid_addr_text(address@),
            parsed as nat == addr_value(address@),
            i <= proc_info.maps@.len(),
            forall|k: int|
                0 <= k < i ==> !region_contains(#[trigger] proc_info.maps@[k], parsed as nat),
        decreases proc_info.maps@.len() - i,
    {
        let m = &proc_info.maps[i];
        if parsed >= m.start && parsed < m.end {
            return Ok(parsed);
        }
        i += 1;
    }
    Err(ParseAddressError::AddressNotMapped)
}

/// Parsing is prefix-insensitive: a hexadecimal numeral names the same
/// address, and is accepted alike, with or without the "0x" marker.
pub proof fn lemma_prefix_insensitive(s: Seq<char>)
    requires
        s.len() > 0,
        all_hex_digits(s),
    ensures
        addr_value(seq!['0', 'x'] + s) == addr_value(s),
        valid_addr_text(seq!['0', 'x'] + s) == valid_addr_text(s),
{
    let p = seq!['0', 'x'] + s;
    assert(p[0] == '0' && p[1] == 'x');
    assert(p.skip(2) =~= s);
    if s.len() >= 2 && s[0] == '0' && s[1] == 'x' {
        assert(is_hex_digit(s[1]));
        assert(false);
    }
}

/// Why a remote read failed.
#[derive(Clone, Copy, Debug, PartialEq, Eq, Structural)]
pub enum ReadError {
    /// The target process no longer exists, or refuses to be read.
    ProcessGone,
    /// Any other failure of the read, such as a region unmapped between
    /// validation and read.
    IoFault,
}

impl ReadError {
    /// The operator-visible message for this error.
    pub open spec fn message(self) -> Seq<char> {
        match self {
            ReadError::ProcessGone => "Process no longer exists or refused the read"@,
            ReadError::IoFault => "Failed to read process memory"@,
        }
    }

    /// Renders the operator-visible message.
    pub fn to_text(&self) -> (r: String)
        ensures
            r@ == self.message(),
    {
        match self {
            ReadError::ProcessGone => "Process no longer exists or refused the read".to_owned(),
            ReadError::IoFault => "Failed to read process memory".to_owned(),
        }
    }
}

/// Relies on nix::sys::uio::process_vm_readv: one bounded cross-process
/// read of up to `len` bytes at `address` in the space of process `pid`,
/// returning the bytes actually obtained, never more than requested;
/// Errno::ESRCH and Errno::EPERM report the target gone or access refused,
/// and any other errno is another I/O fault.
#[verifier::external_body]
fn read_remote(pid: i32, address: usize, len: usize) -> (r: Result<Vec<u8>, ReadError>)
    ensures
        r matches Ok(data) ==> data@.len() <= len,
{
    let mut data = vec![0u8; len];
    let local = std::io::IoSliceMut::new(&mut data);
    let remote = nix::sys::uio::RemoteIoVec { base: address, len };
    let pid = nix::unistd::Pid::from_raw(pid);
    match nix::sys::uio::process_vm_readv(pid, &mut [local], &[remote]) {
        Ok(n) => {
            data.truncate(n);
            Ok(data)
        },
        Err(nix::errno::Errno::ESRCH | nix::errno::Errno::EPERM) => Err(ReadError::ProcessGone),
        Err(_) => Err(ReadError::IoFault),
    }
}

/// The one-line status header of a refresh cycle, followed by the count of
/// bytes the read actually obtained.
pub open spec fn header_text(
    address: nat,
    comm: Seq<char>,
    pid: int,
    timeout: nat,
    count: nat,
) -> Seq<char> {
    "0x"@ + hex_min_seq(address) + " in "@ + comm + "("@ + dec_int_seq(pid) + "), "@ + dec_seq(
        timeout,
    ) + "ms timeout. Press 'Enter' to quit... "@ + "Read "@ + dec_seq(count) + " bytes.\n"@
}

/// The full text of one refresh cycle: the status header, then the hex
/// dump of the bytes obtained — only the bytes obtained, never padding.
pub open spec fn snapshot_text(
    address: nat,
    comm: Seq<char>,
    pid: int,
    timeout: nat,
    data: Seq<u8>,
) -> Seq<char> {
    header_text(address, comm, pid, timeout, data.len()) + render_text(address, data)
}

/// Renders the status header and hex dump for one snapshot of `data`
/// bytes seen at `address`.
pub fn format_snapshot(
    proc_info: &ProcessInfo,
    address: usize,
    timeout: u16,
    data: &Vec<u8>,
) -> (r: String)
    requires
        address + data@.len() <= usize::MAX,
    ensures
        r@ == snapshot_text(
            address as nat,
            proc_info.comm@,
            proc_info.pid as int,
            timeout as nat,
            data@,
        ),
{
    let mut s = "0x".to_owned();
    let hx = hex_min(address);
    s.append(hx.as_str());
    s.append(" in ");
    s.append(proc_info.comm.as_str());
    s.append("(");
    let pd = dec_i32(proc_info.pid);
    s.append(pd.as_str());
    s.append("), ");
    let tm = dec_usize(timeout as usize);
    s.append(tm.as_str());
    s.append("ms timeout. Press 'Enter' to quit... ");
    s.append("Read ");
    let ct = dec_usize(data.len());
    s.append(ct.as_str());
    s.append(" bytes.\n");
    let dump = render(address, data);
    s.append(dump.as_str());
    proof {
        assert(s@ =~= snapshot_text(
            address as nat,
            proc_info.comm@,
            proc_info.pid as int,
            timeout as nat,
            data@,
        ));
    }
    s
}

/// The examine session: the one piece of configuration the refresh loop
/// keeps, its timeout in milliseconds.
pub struct Examine {
    timeout: u16,
}

impl Examine {
    /// The configured refresh timeout, in milliseconds.
    pub closed spec fn timeout_spec(&self) -> u16 {
        self.timeout
    }

    /// A session with the given refresh timeout.
    pub fn new(timeout: u16) -> (r: Self)
        ensures
            r.timeout_spec() == timeout,
    {
        Examine { timeout }
    }

    /// Reconfigures the refresh timeout; it takes effect on the next loop
    /// entered.
    pub fn set_timeout(&mut self, timeout: u16)
        ensures
            final(self).timeout_spec() == timeout,
    {
        self.timeout = timeout;
    }

    /// The configured refresh timeout.
    pub fn timeout(&self) -> (r: u16)
        ensures
            r == self.timeout_spec(),
    {
        self.timeout
    }

    /// One refresh cycle's text: requests sixteen bytes per terminal row
    /// past the header row, reads that window of the target's memory, and
    /// renders the header and the dump of the bytes actually obtained.
    /// With no rows to fill it reads nothing and renders the header alone.
    pub fn examine_bytes(&self, proc_info: &ProcessInfo, address: usize, num_lines: u16) -> (r:
        Result<String, ReadError>)
        requires
            address + spec_bytes_to_request(num_lines) <= usize::MAX,
        ensures
            r matches Ok(text) ==> exists|data: Seq<u8>|
                data.len() <= spec_bytes_to_request(num_lines) && text@ == snapshot_text(
                    address as nat,
                    proc_info.comm@,
                    proc_info.pid as int,
                    self.timeout_spec() as nat,
                    data,
                ),
            spec_bytes_to_request(num_lines) == 0 ==> (r matches Ok(text) && text@
                == snapshot_text(
                address as nat,
                proc_info.comm@,
                proc_info.pid as int,
                self.timeout_spec() as nat,
                Seq::<u8>::empty(),
            )),
    {
        let n = bytes_to_request(num_lines);
        if n == 0 {
            let empty: Vec<u8> = Vec::new();
            let text = format_snapshot(proc_info, address, self.timeout, &empty);
            proof {
                assert(empty@ =~= Seq::<u8>::empty());
                assert(empty@.len() <= spec_bytes_to_request(num_lines) && text@ == snapshot_text(
                    address as nat,
                    proc_info.comm@,
                    proc_info.pid as int,
                    self.timeout_spec() as nat,
                    empty@,
                ));
                assert(exists|data: Seq<u8>|
                    data.len() <= spec_bytes_to_request(num_lines) && text@ == snapshot_text(
                        address as nat,
                        proc_info.comm@,
                        proc_info.pid as int,
                        self.timeout_spec() as nat,
                        data,
                    ));
            }
            return Ok(text);
        }
        match read_remote(proc_info.pid, address, n) {
            Ok(data) => {
                let text = format_snapshot(proc_info, address, self.timeout, &data);
                proof {
                    assert(data@.len() <= spec_bytes_to_request(num_lines) && text@
                        == snapshot_text(
                        address as nat,
                        proc_info.comm@,
                        proc_info.pid as int,
                        self.timeout_spec() as nat,
                        data@,
                    ));
                    assert(exists|d: Seq<u8>|
                        d.len() <= spec_bytes_to_request(num_lines) && text@ == snapshot_text(
                            address as nat,
                            proc_info.comm@,
                            proc_info.pid as int,
                            self.timeout_spec() as nat,
                            d,
                        ));
                }
                Ok(text)
            },
            Err(e) => Err(e),
        }
    }
}

/// Where the refresh loop stands.
#[derive(Clone, Copy, Debug, PartialEq, Eq, Structural)]
pub enum LoopPhase {
    /// Reading and rendering one snapshot.
    Displaying,
    /// Waiting up to the timeout for operator input.
    AwaitingInput,
    /// The session is over; a fresh examine request is needed.
    Ended,
}

/// What the surroundings report back to the loop.
#[derive(Clone, Copy, Debug, PartialEq, Eq, Structural)]
pub enum LoopEvent {
    /// A snapshot was read and rendered.
    DisplayOk,
    /// The read or the terminal query failed.
    DisplayFailed,
    /// The operator sent a line of input: the stop signal.
    InputArrived,
    /// The wait elapsed with no input: time to refresh.
    WaitTimedOut,
    /// The wait itself failed.
    WaitFailed,
}

/// The refresh loop's transition relation: a rendered snapshot waits for
/// input; a failed display ends the session; a timeout begins another
/// display cycle; operator input, or a failed wait, ends the session.
/// There is no automatic retry, and an event its phase cannot produce
/// ends the session too.
pub open spec fn loop_next_spec(phase: LoopPhase, event: LoopEvent) -> LoopPhase {
    match (phase, event) {
        (LoopPhase::Displaying, LoopEvent::DisplayOk) => LoopPhase::AwaitingInput,
        (LoopPhase::AwaitingInput, LoopEvent::WaitTimedOut) => LoopPhase::Displaying,
        _ => LoopPhase::Ended,
    }
}

/// Advances the refresh loop by one observed event.
pub fn loop_next(phase: LoopPhase, event: LoopEvent) -> (r: LoopPhase)
    ensures
        r == loop_next_spec(phase, event),
{
    match (phase, event) {
        (LoopPhase::Displaying, LoopEvent::DisplayOk) => LoopPhase::AwaitingInput,
        (LoopPhase::AwaitingInput, LoopEvent::WaitTimedOut) => LoopPhase::Displaying,
        _ => LoopPhase::Ended,
    }
}

} // verus!

