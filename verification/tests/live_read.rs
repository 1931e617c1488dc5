//! Reads this very test process's memory through the library, using the
//! real region table of the running process.

use memview::memory::{parse_address, Examine, ReadError};
use memview::process_info::{parse_maps, ProcessInfo};

fn read_to_string_via_nix(path: &str) -> String {
    let fd = nix::fcntl::open(path, nix::fcntl::OFlag::O_RDONLY, nix::sys::stat::Mode::empty())
        .unwrap();
    let mut out: Vec<u8> = Vec::new();
    let mut buf = [0u8; 65536];
    loop {
        let n = nix::unistd::read(&fd, &mut buf).unwrap();
        if n == 0 {
            break;
        }
        out.extend_from_slice(&buf[..n]);
    }
    String::from_utf8(out).unwrap()
}

fn own_process_info() -> ProcessInfo {
    let pid = nix::unistd::getpid().as_raw();
    let maps_text = read_to_string_via_nix("/proc/self/maps");
    let lines: Vec<String> = maps_text.lines().map(|l| l.to_string()).collect();
    assert!(!lines.is_empty());
    let maps = parse_maps(&lines).expect("the process's own region table should parse");
    ProcessInfo { pid, comm: String::from("self"), maps }
}

#[test]
fn own_region_table_parses_and_validates() {
    let info = own_process_info();
    let first = &info.maps[0];
    assert!(first.start < first.end);
    let addr_text = format!("0x{:x}", first.start);
    assert_eq!(parse_address(&addr_text, &info), Ok(first.start));
    // one past the last region's end is mapped by no region listed
    let last_end = info.maps.iter().map(|m| m.end).max().unwrap();
    if last_end < usize::MAX {
        let beyond = format!("{:x}", last_end);
        assert!(parse_address(&beyond, &info).is_err());
    }
}

#[test]
fn live_read_of_own_memory() {
    let info = own_process_info();
    let idx = info.maps.iter().position(|m| m.perms.starts_with('r')).unwrap();
    let addr = info.maps[idx].start;
    let examine = Examine::new(500);
    // three terminal rows: one header row, two dump rows of sixteen bytes
    let text = examine.examine_bytes(&info, addr, 3).unwrap();
    let header = format!(
        "0x{:x} in self({}), 500ms timeout. Press 'Enter' to quit... Read 32 bytes.\n",
        addr,
        info.pid
    );
    assert!(text.starts_with(&header), "unexpected header in: {text}");
    let dump: Vec<&str> = text[header.len()..].split('\n').collect();
    assert_eq!(dump.len(), 2);
    assert!(dump[0].starts_with(&format!("{:016x}:", addr)));
    assert!(dump[1].starts_with(&format!("{:016x}:", addr + 16)));
    assert_eq!(dump[0].len(), 17 + 3 * 16);
    assert_eq!(dump[1].len(), 17 + 3 * 16);
}

#[test]
fn unmapped_low_page_read_is_io_fault() {
    let pid = nix::unistd::getpid().as_raw();
    let info = ProcessInfo { pid, comm: String::from("self"), maps: vec![] };
    let examine = Examine::new(500);
    // the lowest pages of a process are never mapped
    let r = examine.examine_bytes(&info, 0x10, 5);
    assert_eq!(r, Err(ReadError::IoFault));
}
