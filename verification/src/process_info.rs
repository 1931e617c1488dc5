//! The target process as the core sees it: its identifier, display name,
//! and mapped memory regions, together with the parsing of one textual
//! region-table line into a region.

use vstd::prelude::*;
use vstd::string::*;

use crate::text::{hex_pad, hex_pad_seq, hex_value, parse_hex_range, valid_hex_for_usize};

verus! {

/// One mapped region of the target's virtual address space.
pub struct MemoryMap {
    /// The first address of the region.
    pub start: usize,
    /// The first address past the region.
    pub end: usize,
    /// The permissions token, as listed.
    pub perms: String,
    /// The backing path, or empty for an anonymous region.
    pub path: String,
}

/// The target process: identifier, display name, and its region list,
/// immutable for the lifetime of a session.
pub struct ProcessInfo {
    /// The process identifier.
    pub pid: i32,
    /// The process's display name.
    pub comm: String,
    /// The mapped regions, in listed order.
    pub maps: Vec<MemoryMap>,
}

impl MemoryMap {
    /// The one-line text of a region: start and end as sixteen zero-padded
    /// hexadecimal digits joined by a dash, then the permissions and path.
    pub open spec fn line_text(self) -> Seq<char> {
        hex_pad_seq(self.start as nat, 16) + seq!['-'] + hex_pad_seq(self.end as nat, 16)
            + seq![' '] + self.perms@ + seq![' '] + self.path@
    }

    /// Renders the region as one line of the region listing.
    pub fn to_text(&self) -> (r: String)
        ensures
            r@ == self.line_text(),
    {
        let mut s = hex_pad(self.start, 16);
        s.append("-");
        let e = hex_pad(self.end, 16);
        s.append(e.as_str());
        s.append(" ");
        s.append(self.perms.as_str());
        s.append(" ");
        s.append(self.path.as_str());
        proof {
            reveal_strlit("-");
            reveal_strlit(" ");
            assert(s@ =~= self.line_text());
        }
        s
    }
}

/// A character that separates the fields of a region-table line.
pub open spec fn is_field_space(c: char) -> bool {
    c == ' ' || c == '\t'
}

/// The whitespace-separated fields of a line, `cur` being the field read
/// so far: a separator closes the current field, and any run of
/// separators, leading or trailing, yields no empty field.
pub open spec fn tokens_acc(s: Seq<char>, cur: Seq<char>) -> Seq<Seq<char>>
    decreases s.len(),
{
    if s.len() == 0 {
        if cur.len() == 0 {
            Seq::empty()
        } else {
            seq![cur]
        }
    } else if is_field_space(s[0]) {
        if cur.len() == 0 {
            tokens_acc(s.drop_first(), Seq::empty())
        } else {
            seq![cur] + tokens_acc(s.drop_first(), Seq::empty())
        }
    } else {
        tokens_acc(s.drop_first(), cur.push(s[0]))
    }
}

/// The whitespace-separated fields of a line.
pub open spec fn tokens_of(s: Seq<char>) -> Seq<Seq<char>> {
    tokens_acc(s, Seq::empty())
}

/// Scanning over field characters only moves them onto the current field.
proof fn lemma_token_scan(s: Seq<char>, i: int, j: int, cur: Seq<char>)
    requires
        0 <= i <= j <= s.len(),
        forall|k: int| i <= k < j ==> !is_field_space(#[trigger] s[k]),
    ensures
        tokens_acc(s.skip(i), cur) == tokens_acc(s.skip(j), cur + s.subrange(i, j)),
    decreases j - i,
{
    if i < j {
        assert(s.skip(i)[0] == s[i]);
        assert(!is_field_space(s[i]));
        assert(s.skip(i).drop_first() =~= s.skip(i + 1));
        lemma_token_scan(s, i + 1, j, cur.push(s[i]));
        assert(cur.push(s[i]) + s.subrange(i + 1, j) =~= cur + s.subrange(i, j));
    } else {
        assert(cur + s.subrange(i, j) =~= cur);
    }
}

/// The end of the field that starts at or after `start`: the index of the
/// next separator, or the end of the text.
fn token_end(s: &str, start: usize) -> (j: usize)
    requires
        start <= s@.len(),
    ensures
        start <= j <= s@.len(),
        forall|k: int| start <= k < j ==> !is_field_space(#[trigger] s@[k]),
        j < s@.len() ==> is_field_space(s@[j as int]),
{
    let n = s.unicode_len();
    let mut j: usize = start;
    while j < n
        invariant
            start <= j <= n,
            n == s@.len(),
            forall|k: int| start <= k < j ==> !is_field_space(#[trigger] s@[k]),
        decreases n - j,
    {
        let c = s.get_char(j);
        if c == ' ' || c == '\t' {
            return j;
        }
        j += 1;
    }
    j
}

/// Splits a region-table line into its whitespace-separated fields.
pub fn split_fields(s: &str) -> (r: Vec<String>)
    ensures
        r@.len() == tokens_of(s@).len(),
        forall|k: int| 0 <= k < r@.len() ==> (#[trigger] r@[k])@ == tokens_of(s@)[k],
{
    let n = s.unicode_len();
    let mut out: Vec<String> = Vec::new();
    let ghost full = tokens_of(s@);
    proof {
        assert(s@.skip(0) =~= s@);
        assert(full.skip(0) =~= full);
    }
    let mut i: usize = 0;
    while i < n
        invariant
            n == s@.len(),
            i <= n,
            out@.len() <= full.len(),
            full == tokens_of(s@),
            forall|k: int| 0 <= k < out@.len() ==> (#[trigger] out@[k])@ == full[k],
            tokens_acc(s@.skip(i as int), Seq::empty()) == full.skip(out@.len() as int),
        decreases n - i,
    {
        let c = s.get_char(i);
        if c == ' ' || c == '\t' {
            proof {
                assert(s@.skip(i as int)[0] == s@[i as int]);
                assert(s@.skip(i as int).drop_first() =~= s@.skip(i as int + 1));
            }
            i += 1;
        } else {
            let j = token_end(s, i);
            assert(j > i);
            let tok = s.substring_char(i, j).to_owned();
            proof {
                let m = out@.len() as int;
                let t = s@.subrange(i as int, j as int);
                lemma_token_scan(s@, i as int, j as int, Seq::empty());
                assert(Seq::empty() + t =~= t);
                if j < n {
                    assert(s@.skip(j as int)[0] == s@[j as int]);
                    assert(is_field_space(s@[j as int]));
                    assert(s@.skip(j as int).drop_first() =~= s@.skip(j as int + 1));
                    assert(tokens_acc(s@.skip(i as int), Seq::empty()) == seq![t] + tokens_acc(
                        s@.skip(j as int + 1),
                        Seq::empty(),
                    ));
                } else {
                    assert(s@.skip(j as int) =~= Seq::<char>::empty());
                    assert(tokens_acc(s@.skip(i as int), Seq::empty()) == seq![t]
                        + tokens_acc(Seq::<char>::empty(), Seq::empty()));
                    assert(tokens_acc(Seq::<char>::empty(), Seq::empty())
                        =~= Seq::<Seq<char>>::empty());
                    assert(seq![t] + Seq::<Seq<char>>::empty() =~= seq![t]);
                }
                assert(full.skip(m).len() >= 1);
                assert(full.skip(m)[0] == full[m]);
                assert(full[m] == t);
                assert(full.skip(m + 1) =~= full.skip(m).drop_first());
            }
            out.push(tok);
            if j < n {
                i = j + 1;
            } else {
                i = j;
            }
        }
    }
    proof {
        assert(s@.skip(n as int) =~= Seq::<char>::empty());
        assert(full.skip(out@.len() as int).len() == 0);
    }
    out
}

/// The index of the first dash of `s`, or its length if it has none.
pub open spec fn first_dash(s: Seq<char>) -> nat
    decreases s.len(),
{
    if s.len() == 0 {
        0
    } else if s[0] == '-' {
        0
    } else {
        1 + first_dash(s.drop_first())
    }
}

/// Positional facts pin the first dash down.
proof fn lemma_first_dash_at(s: Seq<char>, j: int)
    requires
        0 <= j <= s.len(),
        forall|k: int| 0 <= k < j ==> #[trigger] s[k] != '-',
        j < s.len() ==> s[j] == '-',
    ensures
        first_dash(s) == j,
    decreases j,
{
    if j == 0 {
    } else {
        assert(s[0] != '-');
        let t = s.drop_first();
        assert forall|k: int| 0 <= k < j - 1 implies #[trigger] t[k] != '-' by {
            assert(t[k] == s[k + 1]);
        }
        if j - 1 < t.len() {
            assert(t[j - 1] == s[j]);
        }
        lemma_first_dash_at(t, j - 1);
    }
}

/// The first dash of `s` at or after `from`, or the end of the text.
fn find_dash_from(s: &str, from: usize) -> (j: usize)
    requires
        from <= s@.len(),
    ensures
        from <= j <= s@.len(),
        forall|k: int| from <= k < j ==> #[trigger] s@[k] != '-',
        j < s@.len() ==> s@[j as int] == '-',
{
    let n = s.unicode_len();
    let mut j: usize = from;
    while j < n
        invariant
            from <= j <= n,
            n == s@.len(),
            forall|k: int| from <= k < j ==> #[trigger] s@[k] != '-',
        decreases n - j,
    {
        let c = s.get_char(j);
        if c == '-' {
            return j;
        }
        j += 1;
    }
    j
}

/// What one region-table line describes, when it is well formed: the
/// first field is two hexadecimal numerals joined by a dash (the region's
/// start and end), the second is the permissions token, and the sixth,
/// when present, is the backing path.
pub open spec fn region_fields(s: Seq<char>) -> Option<(nat, nat, Seq<char>, Seq<char>)> {
    let ts = tokens_of(s);
    if ts.len() < 2 {
        None
    } else {
        let t0 = ts[0];
        let d = first_dash(t0) as int;
        if d >= t0.len() {
            None
        } else {
            let st = t0.take(d);
            let rest = t0.skip(d + 1);
            let en = rest.take(first_dash(rest) as int);
            if valid_hex_for_usize(st) && valid_hex_for_usize(en) {
                Some(
                    (
                        hex_value(st),
                        hex_value(en),
                        ts[1],
                        if ts.len() > 5 {
                            ts[5]
                        } else {
                            Seq::empty()
                        },
                    ),
                )
            } else {
                None
            }
        }
    }
}

/// The region `m` is the one a well-formed line `s` describes.
pub open spec fn map_matches_line(m: MemoryMap, s: Seq<char>) -> bool {
    match region_fields(s) {
        Some(t) => m.start as nat == t.0 && m.end as nat == t.1 && m.perms@ == t.2 && m.path@
            == t.3,
        None => false,
    }
}

/// Parses one line of the region table; it succeeds exactly when the line
/// is well formed, and then returns the region the line describes.
pub fn parse_maps_line(line: &str) -> (r: Option<MemoryMap>)
    ensures
        (r is Some) <==> (region_fields(line@) is Some),
        r matches Some(m) ==> map_matches_line(m, line@),
{
    let fields = split_fields(line);
    let ghost ts = tokens_of(line@);
    if fields.len() < 2 {
        return None;
    }
    let t0: &String = &fields[0];
    let t0s = t0.as_str();
    assert(t0s@ == ts[0]);
    let t0n = t0s.unicode_len();
    let d = find_dash_from(t0s, 0);
    proof {
        lemma_first_dash_at(t0s@, d as int);
    }
    if d == t0n {
        return None;
    }
    proof {
        assert(t0s@.subrange(0, d as int) =~= t0s@.take(d as int));
    }
    let start = match parse_hex_range(t0s, 0, d) {
        Some(v) => v,
        None => {
            return None;
        },
    };
    let d2 = find_dash_from(t0s, d + 1);
    let ghost rest = t0s@.skip(d as int + 1);
    proof {
        assert forall|k: int| 0 <= k < d2 - (d + 1) implies #[trigger] rest[k] != '-' by {
            assert(rest[k] == t0s@[d + 1 + k]);
        }
        if d2 < t0n {
            assert(rest[d2 - (d + 1)] == t0s@[d2 as int]);
        }
        lemma_first_dash_at(rest, d2 - (d + 1));
        assert(rest.take(d2 - (d + 1)) =~= t0s@.subrange(d as int + 1, d2 as int));
    }
    let end = match parse_hex_range(t0s, d + 1, d2) {
        Some(v) => v,
        None => {
            return None;
        },
    };
    let perms = fields[1].clone();
    let path = if fields.len() > 5 {
        fields[5].clone()
    } else {
        String::new()
    };
    Some(MemoryMap { start, end, perms, path })
}

/// Parses the whole region table, one line per region; it succeeds exactly
/// when every line is well formed, and keeps the listed order.
pub fn parse_maps(lines: &Vec<String>) -> (r: Option<Vec<MemoryMap>>)
    ensures
        (r is Some) <==> (forall|i: int|
            0 <= i < lines@.len() ==> region_fields((#[trigger] lines@[i])@) is Some),
        r matches Some(ms) ==> ms@.len() == lines@.len() && (forall|i: int|
            0 <= i < lines@.len() ==> map_matches_line(#[trigger] ms@[i], lines@[i]@)),
{
    let mut out: Vec<MemoryMap> = Vec::new();
    let mut i: usize = 0;
    while i < lines.len()
        invariant
            i <= lines@.len(),
            out@.len() == i,
            forall|k: int|
                0 <= k < i ==> region_fields((#[trigger] lines@[k])@) is Some,
            forall|k: int| 0 <= k < i ==> map_matches_line(#[trigger] out@[k], lines@[k]@),
        decreases lines@.len() - i,
    {
        let li: &String = &lines[i];
        match parse_maps_line(li.as_str()) {
            Some(m) => {
                out.push(m);
            },
            None => {
                assert(!(region_fields(lines@[i as int]@) is Some));
                return None;
            },
        }
        i += 1;
    }
    Some(out)
}

} // verus!
