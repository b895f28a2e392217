//! SSDP: what the server announces, what it answers to a search, and how it
//! reads the packets it receives.

use vstd::prelude::*;

use crate::text::{
    chars_of, decimal, push_chars, push_decimal, push_str, split_char, split_char_exec,
    starts_with, starts_with_exec, str_eq, string_from, string_of, to_uppercase, trim, trim_chars,
    uppercase,
};

verus! {

// ---------------------------------------------------------------------------
// Reading received packets
// ---------------------------------------------------------------------------

/// What a received packet is.
#[derive(Debug, Clone, Copy, PartialEq, Eq, Structural)]
pub enum PacketKind {
    /// An `M-SEARCH` request, to be answered.
    Search,
    /// A `NOTIFY` announcement or a search answer from another device.
    Announcement,
    /// Anything else.
    Other,
}

/// The kind of a packet, by how it begins.
pub open spec fn packet_kind(msg: Seq<char>) -> PacketKind {
    if starts_with(msg, "M-SEARCH"@) {
        PacketKind::Search
    } else if starts_with(msg, "NOTIFY"@) || starts_with(msg, "HTTP/1.1 200 OK"@) {
        PacketKind::Announcement
    } else {
        PacketKind::Other
    }
}

/// Classifies a received packet.
pub fn classify_packet(msg: &str) -> (r: PacketKind)
    ensures
        r == packet_kind(msg@),
{
    let m = chars_of(msg);
    let search = chars_of("M-SEARCH");
    let notify = chars_of("NOTIFY");
    let ok = chars_of("HTTP/1.1 200 OK");
    if starts_with_exec(m.as_slice(), search.as_slice()) {
        PacketKind::Search
    } else if starts_with_exec(m.as_slice(), notify.as_slice()) || starts_with_exec(
        m.as_slice(),
        ok.as_slice(),
    ) {
        PacketKind::Announcement
    } else {
        PacketKind::Other
    }
}

/// A line without its final carriage return.
pub open spec fn strip_cr(l: Seq<char>) -> Seq<char> {
    if l.len() > 0 && l.last() == '\r' {
        l.drop_last()
    } else {
        l
    }
}

/// The lines of a text as `str::lines` gives them: split at `\n`, a `\r`
/// before the `\n` dropped, no empty line after a final `\n`.
pub open spec fn text_lines(s: Seq<char>) -> Seq<Seq<char>> {
    let ps = split_char(s, '\n');
    let init = ps.drop_last().map_values(|p: Seq<char>| strip_cr(p));
    if ps.last().len() == 0 {
        init
    } else {
        init.push(ps.last())
    }
}

/// The first line whose upper-case form begins with `prefix`.
pub open spec fn first_line_with_prefix(lines: Seq<Seq<char>>, prefix: Seq<char>) -> Option<Seq<char>>
    decreases lines.len(),
{
    if lines.len() == 0 {
        None
    } else if starts_with(uppercase(lines[0]), prefix) {
        Some(lines[0])
    } else {
        first_line_with_prefix(lines.drop_first(), prefix)
    }
}

/// The number of bytes of `c` in UTF-8.
pub open spec fn utf8_len(c: char) -> nat {
    if (c as u32) < 0x80 {
        1
    } else if (c as u32) < 0x800 {
        2
    } else if (c as u32) < 0x10000 {
        3
    } else {
        4
    }
}

/// `s` without its first `n` bytes of UTF-8, when `n` bytes end on a character
/// boundary (`&s[n..]`, which panics otherwise).
pub open spec fn drop_bytes(s: Seq<char>, n: nat) -> Option<Seq<char>>
    decreases s.len(),
{
    if n == 0 {
        Some(s)
    } else if s.len() == 0 {
        None
    } else if utf8_len(s[0]) <= n {
        drop_bytes(s.drop_first(), (n - utf8_len(s[0])) as nat)
    } else {
        None
    }
}

/// The value of a header line: the line after its name's `n` bytes, trimmed.
/// `None` when those bytes end inside a character, where the server's slicing
/// of the line fails.
pub open spec fn header_value(line: Seq<char>, n: nat) -> Option<Seq<char>> {
    match drop_bytes(line, n) {
        Some(rest) => Some(trim(rest)),
        None => None,
    }
}

/// The search target of an `M-SEARCH` packet: the value of its first `ST:`
/// line (the name matched without regard to case), or empty without one.
/// `None` when the line cannot be cut after its name.
pub open spec fn search_target(msg: Seq<char>) -> Option<Seq<char>> {
    match first_line_with_prefix(text_lines(msg), "ST:"@) {
        Some(l) => match header_value(trim(l), 3) {
            Some(v) => Some(trim(v)),
            None => None,
        },
        None => Some(Seq::empty()),
    }
}

/// The `LOCATION:` value of an announcement: `Some(None)` without such a line,
/// `None` when the line cannot be cut after its name.
pub open spec fn location_header(msg: Seq<char>) -> Option<Option<Seq<char>>> {
    match first_line_with_prefix(text_lines(msg), "LOCATION:"@) {
        Some(l) => match header_value(l, 9) {
            Some(v) => Some(Some(v)),
            None => None,
        },
        None => Some(None),
    }
}

/// The lines of a text, as `str::lines` gives them.
pub fn lines_of(s: &str) -> (r: Vec<Vec<char>>)
    ensures
        r@.len() == text_lines(s@).len(),
        forall|k: int| 0 <= k < r@.len() ==> #[trigger] r@[k]@ == text_lines(s@)[k],
{
    let chars = chars_of(s);
    let pieces = split_char_exec(chars.as_slice(), '\n');
    let ghost ps = split_char(s@, '\n');
    proof {
        crate::text::lemma_split_char_nonempty(s@, '\n');
    }
    let n = pieces.len();
    let mut out: Vec<Vec<char>> = Vec::new();
    let mut i: usize = 0;
    while i + 1 < n
        invariant
            n == pieces@.len(),
            n == ps.len(),
            n >= 1,
            i + 1 <= n,
            forall|k: int| 0 <= k < n ==> #[trigger] pieces@[k]@ == ps[k],
            out@.len() == i,
            forall|k: int| 0 <= k < i ==> #[trigger] out@[k]@ == strip_cr(ps[k]),
        decreases n - i,
    {
        let p = &pieces[i];
        assert(p@ == ps[i as int]);
        if p.len() > 0 && p[p.len() - 1] == '\r' {
            out.push(crate::text::sub_vec(p.as_slice(), 0, p.len() - 1));
            assert(p@.subrange(0, p@.len() - 1) =~= p@.drop_last());
        } else {
            out.push(crate::text::sub_vec(p.as_slice(), 0, p.len()));
            assert(p@.subrange(0, p@.len() as int) =~= p@);
        }
        i += 1;
    }
    let last = &pieces[n - 1];
    assert(last@ == ps.last());
    let ghost init = ps.drop_last().map_values(|p: Seq<char>| strip_cr(p));
    assert(out@.len() == init.len());
    if last.len() > 0 {
        out.push(crate::text::sub_vec(last.as_slice(), 0, last.len()));
        assert(last@.subrange(0, last@.len() as int) =~= last@);
    }
    out
}

/// `s` without its first `n` bytes of UTF-8, when they end on a character boundary.
pub fn drop_bytes_exec(s: &[char], n: usize) -> (r: Option<Vec<char>>)
    ensures
        r is Some <==> drop_bytes(s@, n as nat) is Some,
        r matches Some(v) ==> drop_bytes(s@, n as nat) == Some(v@),
{
    let mut i: usize = 0;
    let mut left: usize = n;
    assert(s@.subrange(0, s@.len() as int) =~= s@);
    while left > 0
        invariant
            i <= s@.len(),
            left <= n,
            drop_bytes(s@, n as nat) == drop_bytes(s@.subrange(i as int, s@.len() as int), left as nat),
        decreases left,
    {
        if i >= s.len() {
            assert(s@.subrange(i as int, s@.len() as int).len() == 0);
            return None;
        }
        let c = s[i];
        let w: usize = if (c as u32) < 0x80 {
            1
        } else if (c as u32) < 0x800 {
            2
        } else if (c as u32) < 0x10000 {
            3
        } else {
            4
        };
        let ghost rest = s@.subrange(i as int, s@.len() as int);
        assert(rest[0] == c);
        assert(w == utf8_len(c));
        if w > left {
            return None;
        }
        assert(rest.drop_first() =~= s@.subrange(i + 1, s@.len() as int));
        left = left - w;
        i = i + 1;
    }
    Some(crate::text::sub_vec(s, i, s.len()))
}

/// The character sequences of a list of character vectors.
pub open spec fn char_views(v: Seq<Vec<char>>) -> Seq<Seq<char>> {
    v.map_values(|l: Vec<char>| l@)
}

/// The first line whose upper-case form begins with `prefix`.
fn first_line_with_prefix_exec(lines: &Vec<Vec<char>>, prefix: &str) -> (r: Option<usize>)
    ensures
        r matches Some(i) ==> i < lines@.len() && first_line_with_prefix(
            char_views(lines@),
            prefix@,
        ) == Some(lines@[i as int]@),
        r is None ==> first_line_with_prefix(char_views(lines@), prefix@) is None,
{
    let ghost ls = char_views(lines@);
    let p = chars_of(prefix);
    let mut i: usize = 0;
    assert(ls.skip(0) =~= ls);
    while i < lines.len()
        invariant
            i <= lines@.len(),
            ls == char_views(lines@),
            p@ == prefix@,
            first_line_with_prefix(ls, p@) == first_line_with_prefix(ls.skip(i as int), p@),
        decreases lines.len() - i,
    {
        let l = string_of(lines[i].as_slice());
        let u = to_uppercase(l.as_str());
        let uc = chars_of(u.as_str());
        assert(ls.skip(i as int)[0] == lines@[i as int]@);
        if starts_with_exec(uc.as_slice(), p.as_slice()) {
            assert(ls.skip(i as int).len() > 0);
            assert(starts_with(uppercase(ls.skip(i as int)[0]), p@));
            assert(first_line_with_prefix(ls.skip(i as int), p@) == Some(lines@[i as int]@));
            return Some(i);
        }
        assert(ls.skip(i as int).drop_first() =~= ls.skip(i + 1));
        i += 1;
    }
    None
}

/// Reads the search target of an `M-SEARCH` packet. `None` when the `ST:`
/// line cannot be cut after its name.
pub fn read_search_target(msg: &str) -> (r: Option<String>)
    ensures
        r is Some <==> search_target(msg@) is Some,
        r matches Some(t) ==> search_target(msg@) == Some(t@),
{
    let lines = lines_of(msg);
    assert(char_views(lines@) =~= text_lines(msg@));
    match first_line_with_prefix_exec(&lines, "ST:") {
        Some(i) => {
            let line = trim_chars(lines[i].as_slice());
            match drop_bytes_exec(line.as_slice(), 3) {
                Some(rest) => {
                    let v = trim_chars(rest.as_slice());
                    let w = trim_chars(v.as_slice());
                    Some(string_of(w.as_slice()))
                },
                None => None,
            }
        },
        None => Some(String::new()),
    }
}

/// Reads the `LOCATION:` value of an announcement. `Some(None)` without such
/// a line; `None` when the line cannot be cut after its name.
pub fn read_location(msg: &str) -> (r: Option<Option<String>>)
    ensures
        r is Some <==> location_header(msg@) is Some,
        r matches Some(o) ==> location_header(msg@) == Some(
            match o {
                Some(s) => Some(s@),
                None => None::<Seq<char>>,
            },
        ),
{
    let lines = lines_of(msg);
    assert(char_views(lines@) =~= text_lines(msg@));
    match first_line_with_prefix_exec(&lines, "LOCATION:") {
        Some(i) => match drop_bytes_exec(lines[i].as_slice(), 9) {
            Some(rest) => {
                let v = trim_chars(rest.as_slice());
                Some(Some(string_of(v.as_slice())))
            },
            None => None,
        },
        None => Some(None),
    }
}

// ---------------------------------------------------------------------------
// What the server announces and answers
// ---------------------------------------------------------------------------

/// The device and service types the server announces and answers for.
pub open spec fn service_types() -> Seq<Seq<char>> {
    seq![
        "upnp:rootdevice"@,
        "urn:schemas-upnp-org:device:MediaServer:1"@,
        "urn:schemas-upnp-org:service:ContentDirectory:1"@,
        "urn:schemas-upnp-org:service:ConnectionManager:1"@,
        "urn:microsoft.com:service:X_MS_MediaReceiverRegistrar:1"@,
    ]
}

/// The target naming this very device.
pub open spec fn uuid_target(uuid: Seq<char>) -> Seq<char> {
    "uuid:"@ + uuid
}

/// Everything the server announces: its types and its own UUID target.
pub open spec fn announcement_targets(uuid: Seq<char>) -> Seq<Seq<char>> {
    service_types().push(uuid_target(uuid))
}

/// The targets a search for `target` is answered with: everything for
/// `ssdp:all`, the target itself when the server has it, else nothing.
pub open spec fn search_answers(target: Seq<char>, uuid: Seq<char>) -> Seq<Seq<char>> {
    if target == "ssdp:all"@ {
        announcement_targets(uuid)
    } else if service_types().contains(target) || target == uuid_target(uuid) {
        seq![target]
    } else {
        Seq::empty()
    }
}

fn service_types_exec() -> (r: Vec<String>)
    ensures
        r@.map_values(|s: String| s@) == service_types(),
{
    let mut v: Vec<String> = Vec::new();
    v.push(string_from("upnp:rootdevice"));
    v.push(string_from("urn:schemas-upnp-org:device:MediaServer:1"));
    v.push(string_from("urn:schemas-upnp-org:service:ContentDirectory:1"));
    v.push(string_from("urn:schemas-upnp-org:service:ConnectionManager:1"));
    v.push(string_from("urn:microsoft.com:service:X_MS_MediaReceiverRegistrar:1"));
    assert(v@.map_values(|s: String| s@) =~= service_types());
    v
}

fn uuid_target_exec(uuid: &str) -> (r: String)
    ensures
        r@ == uuid_target(uuid@),
{
    let mut s = string_from("uuid:");
    push_str(&mut s, uuid);
    s
}

/// The notification types the server announces, in order.
pub fn announced_targets(uuid: &str) -> (r: Vec<String>)
    ensures
        r@.map_values(|s: String| s@) == announcement_targets(uuid@),
{
    let mut v = service_types_exec();
    let ghost before = v@;
    v.push(uuid_target_exec(uuid));
    assert(v@.map_values(|s: String| s@) =~= before.map_values(|s: String| s@).push(uuid_target(uuid@)));
    v
}

/// The search targets to answer a search for `target` with, in order.
pub fn search_answer_targets(target: &str, uuid: &str) -> (r: Vec<String>)
    ensures
        r@.map_values(|s: String| s@) == search_answers(target@, uuid@),
{
    if str_eq(target, "ssdp:all") {
        return announced_targets(uuid);
    }
    let types = service_types_exec();
    let ghost ts = service_types();
    let mut known = false;
    let mut i: usize = 0;
    while i < types.len()
        invariant
            i <= types@.len(),
            types@.map_values(|s: String| s@) == ts,
            known == exists|j: int| 0 <= j < i && ts[j] == target@,
        decreases types.len() - i,
    {
        if str_eq(types[i].as_str(), target) {
            assert(ts[i as int] == types@[i as int]@);
            known = true;
        } else {
            assert(ts[i as int] == types@[i as int]@);
        }
        i += 1;
    }
    let own = uuid_target_exec(uuid);
    let mut out: Vec<String> = Vec::new();
    proof {
        if ts.contains(target@) {
            let j = choose|j: int| 0 <= j < ts.len() && ts[j] == target@;
            assert(exists|j: int| 0 <= j < types@.len() && ts[j] == target@);
        }
    }
    if known || str_eq(own.as_str(), target) {
        out.push(string_from(target));
        assert(out@.map_values(|s: String| s@) =~= seq![target@]);
    } else {
        assert(out@.map_values(|s: String| s@) =~= Seq::<Seq<char>>::empty());
    }
    out
}

/// The unique service name for a target: the target itself when it is a UUID
/// target, else the device's UUID target, `::` and the target.
pub open spec fn unique_service_name(uuid: Seq<char>, target: Seq<char>) -> Seq<char> {
    if starts_with(target, "uuid:"@) {
        target
    } else {
        "uuid:"@ + uuid + "::"@ + target
    }
}

/// The unique service name for a target.
pub fn usn_for(uuid: &str, target: &str) -> (r: String)
    ensures
        r@ == unique_service_name(uuid@, target@),
{
    let t = chars_of(target);
    let p = chars_of("uuid:");
    if starts_with_exec(t.as_slice(), p.as_slice()) {
        string_from(target)
    } else {
        let mut s = string_from("uuid:");
        push_str(&mut s, uuid);
        push_str(&mut s, "::");
        push_str(&mut s, target);
        s
    }
}

/// The address of the device description.
pub open spec fn description_location(local_ip: Seq<char>, http_port: u16) -> Seq<char> {
    "http://"@ + local_ip + ":"@ + decimal(http_port as nat) + "/description.xml"@
}

/// The address of the device description.
pub fn description_url(local_ip: &str, http_port: u16) -> (r: String)
    ensures
        r@ == description_location(local_ip@, http_port),
{
    let mut s = string_from("http://");
    push_str(&mut s, local_ip);
    push_str(&mut s, ":");
    push_decimal(&mut s, http_port as u64);
    push_str(&mut s, "/description.xml");
    s
}

/// The answer to a search, for one target.
pub open spec fn search_response_text(date: Seq<char>, location: Seq<char>, st: Seq<char>, usn: Seq<char>) -> Seq<char> {
    "HTTP/1.1 200 OK\r\nCACHE-CONTROL: max-age=1800\r\nDATE: "@ + date + "\r\nEXT:\r\nLOCATION: "@ + location + "\r\nSERVER: UPnP/1.0 DLNADOC/1.50 Rust-DLNA/1.0\r\nST: "@ + st + "\r\nUSN: "@ + usn + "\r\nBOOTID.UPNP.ORG: 0\r\nCONFIGID.UPNP.ORG: 1\r\n\r\n"@
}

/// The answer to a search for `st`, dated `date`.
pub fn search_response(date: &str, uuid: &str, http_port: u16, st: &str, local_ip: &str) -> (r: String)
    ensures
        r@ == search_response_text(
            date@,
            description_location(local_ip@, http_port),
            st@,
            unique_service_name(uuid@, st@),
        ),
{
    let location = description_url(local_ip, http_port);
    let usn = usn_for(uuid, st);
    let mut s = string_from("HTTP/1.1 200 OK\r\nCACHE-CONTROL: max-age=1800\r\nDATE: ");
    push_str(&mut s, date);
    push_str(&mut s, "\r\nEXT:\r\nLOCATION: ");
    push_str(&mut s, location.as_str());
    push_str(&mut s, "\r\nSERVER: UPnP/1.0 DLNADOC/1.50 Rust-DLNA/1.0\r\nST: ");
    push_str(&mut s, st);
    push_str(&mut s, "\r\nUSN: ");
    push_str(&mut s, usn.as_str());
    push_str(&mut s, "\r\nBOOTID.UPNP.ORG: 0\r\nCONFIGID.UPNP.ORG: 1\r\n\r\n");
    s
}

/// The `ssdp:alive` announcement of one notification type.
pub open spec fn notify_text(location: Seq<char>, nt: Seq<char>, usn: Seq<char>, boot_id: u32) -> Seq<char> {
    "NOTIFY * HTTP/1.1\r\nHOST: 239.255.255.250:1900\r\nCACHE-CONTROL: max-age=1800\r\nLOCATION: "@ + location + "\r\nNT: "@ + nt + "\r\nNTS: ssdp:alive\r\nSERVER: UPnP/1.0 DLNADOC/1.50 Rust-DLNA/1.0\r\nUSN: "@ + usn + "\r\nBOOTID.UPNP.ORG: "@ + decimal(boot_id as nat) + "\r\nCONFIGID.UPNP.ORG: 1\r\n\r\n"@
}

/// The `ssdp:alive` announcement of `nt`, sent to the multicast group.
pub fn notify_message(uuid: &str, http_port: u16, nt: &str, local_ip: &str, boot_id: u32) -> (r: String)
    ensures
        r@ == notify_text(
            description_location(local_ip@, http_port),
            nt@,
            unique_service_name(uuid@, nt@),
            boot_id,
        ),
{
    let location = description_url(local_ip, http_port);
    let usn = usn_for(uuid, nt);
    let mut s = string_from("NOTIFY * HTTP/1.1\r\nHOST: 239.255.255.250:1900\r\nCACHE-CONTROL: max-age=1800\r\nLOCATION: ");
    push_str(&mut s, location.as_str());
    push_str(&mut s, "\r\nNT: ");
    push_str(&mut s, nt);
    push_str(&mut s, "\r\nNTS: ssdp:alive\r\nSERVER: UPnP/1.0 DLNADOC/1.50 Rust-DLNA/1.0\r\nUSN: ");
    push_str(&mut s, usn.as_str());
    push_str(&mut s, "\r\nBOOTID.UPNP.ORG: ");
    push_decimal(&mut s, boot_id as u64);
    push_str(&mut s, "\r\nCONFIGID.UPNP.ORG: 1\r\n\r\n");
    s
}

// ---------------------------------------------------------------------------
// The announcement schedule
// ---------------------------------------------------------------------------

/// The rounds of announcements sent in quick succession at start-up.
pub open spec fn startup_rounds() -> int {
    5
}

/// The pause, in milliseconds, after sending the `i`-th of `n` targets in
/// announcement round `round` (counted from 0): at start-up none between
/// targets and 200 after the last; later 100 between targets and 30000 (the
/// keep-alive interval) after the last.
pub open spec fn pause_after(round: int, i: int, n: int) -> int {
    if round < startup_rounds() {
        if i == n - 1 {
            200
        } else {
            0
        }
    } else {
        if i == n - 1 {
            30000
        } else {
            100
        }
    }
}

/// The pauses, in milliseconds, after each of `n_targets` targets announced in
/// round `round`.
pub fn announcement_pauses(round: u64, n_targets: usize) -> (r: Vec<u64>)
    ensures
        r@.len() == n_targets,
        forall|i: int| 0 <= i < n_targets ==> r@[i] == pause_after(round as int, i, n_targets as int),
{
    let startup = round < 5;
    let mut r: Vec<u64> = Vec::new();
    let mut i: usize = 0;
    while i < n_targets
        invariant
            i <= n_targets,
            startup == (round < startup_rounds()),
            r@.len() == i,
            forall|k: int| 0 <= k < i ==> r@[k] == pause_after(round as int, k, n_targets as int),
        decreases n_targets - i,
    {
        let last = i + 1 == n_targets;
        let pause: u64 = if startup {
            if last { 200 } else { 0 }
        } else {
            if last { 30000 } else { 100 }
        };
        r.push(pause);
        i += 1;
    }
    r
}

// ---------------------------------------------------------------------------
// Laws
// ---------------------------------------------------------------------------

/// A search for `ssdp:all` is answered once for every announced target; a
/// search for a target the server does not have is not answered.
pub proof fn lemma_search_answers(target: Seq<char>, uuid: Seq<char>)
    ensures
        target == "ssdp:all"@ ==> search_answers(target, uuid) == announcement_targets(uuid),
        target != "ssdp:all"@ && !announcement_targets(uuid).contains(target) ==> search_answers(
            target,
            uuid,
        ).len() == 0,
        target != "ssdp:all"@ && announcement_targets(uuid).contains(target) ==> search_answers(
            target,
            uuid,
        ) == seq![target],
{
    let a = announcement_targets(uuid);
    if target != "ssdp:all"@ {
        if service_types().contains(target) {
            let j = choose|j: int| 0 <= j < service_types().len() && service_types()[j] == target;
            assert(a[j] == target);
        }
        if target == uuid_target(uuid) {
            assert(a[5] == target);
        }
        if a.contains(target) {
            let j = choose|j: int| 0 <= j < a.len() && a[j] == target;
            if j < 5 {
                assert(service_types()[j] == target);
            }
        }
    }
}

/// The unique service name of a UUID target is the target; of any other
/// target it names the device and the target.
pub proof fn lemma_usn_of_uuid_target(uuid: Seq<char>)
    ensures
        unique_service_name(uuid, uuid_target(uuid)) == uuid_target(uuid),
{
    reveal_strlit("uuid:");
    assert((uuid_target(uuid)).take(5) =~= "uuid:"@);
}

/// The server announces itself as the root device, as a `MediaServer:1` device,
/// as its ContentDirectory, ConnectionManager and X_MS_MediaReceiverRegistrar
/// services and by its UUID, in that order; and a search for any of these
/// types is answered with that type.
pub proof fn lemma_announced_types(uuid: Seq<char>)
    ensures
        announcement_targets(uuid) == seq![
            "upnp:rootdevice"@,
            "urn:schemas-upnp-org:device:MediaServer:1"@,
            "urn:schemas-upnp-org:service:ContentDirectory:1"@,
            "urn:schemas-upnp-org:service:ConnectionManager:1"@,
            "urn:microsoft.com:service:X_MS_MediaReceiverRegistrar:1"@,
            "uuid:"@ + uuid,
        ],
        search_answers("upnp:rootdevice"@, uuid) == seq!["upnp:rootdevice"@],
        search_answers("urn:schemas-upnp-org:device:MediaServer:1"@, uuid) == seq!["urn:schemas-upnp-org:device:MediaServer:1"@],
        search_answers("urn:schemas-upnp-org:service:ContentDirectory:1"@, uuid) == seq!["urn:schemas-upnp-org:service:ContentDirectory:1"@],
        search_answers("urn:schemas-upnp-org:service:ConnectionManager:1"@, uuid) == seq!["urn:schemas-upnp-org:service:ConnectionManager:1"@],
        search_answers("urn:microsoft.com:service:X_MS_MediaReceiverRegistrar:1"@, uuid) == seq!["urn:microsoft.com:service:X_MS_MediaReceiverRegistrar:1"@],
{
    reveal_strlit("ssdp:all");
    reveal_strlit("upnp:rootdevice");
    reveal_strlit("urn:schemas-upnp-org:device:MediaServer:1");
    reveal_strlit("urn:schemas-upnp-org:service:ContentDirectory:1");
    reveal_strlit("urn:schemas-upnp-org:service:ConnectionManager:1");
    reveal_strlit("urn:microsoft.com:service:X_MS_MediaReceiverRegistrar:1");
    assert(service_types()[0] == "upnp:rootdevice"@);
    assert("upnp:rootdevice"@.len() != "ssdp:all"@.len() || "upnp:rootdevice"@[0] != "ssdp:all"@[0]);
    assert(service_types()[1] == "urn:schemas-upnp-org:device:MediaServer:1"@);
    assert("urn:schemas-upnp-org:device:MediaServer:1"@.len() != "ssdp:all"@.len() || "urn:schemas-upnp-org:device:MediaServer:1"@[0] != "ssdp:all"@[0]);
    assert(service_types()[2] == "urn:schemas-upnp-org:service:ContentDirectory:1"@);
    assert("urn:schemas-upnp-org:service:ContentDirectory:1"@.len() != "ssdp:all"@.len() || "urn:schemas-upnp-org:service:ContentDirectory:1"@[0] != "ssdp:all"@[0]);
    assert(service_types()[3] == "urn:schemas-upnp-org:service:ConnectionManager:1"@);
    assert("urn:schemas-upnp-org:service:ConnectionManager:1"@.len() != "ssdp:all"@.len() || "urn:schemas-upnp-org:service:ConnectionManager:1"@[0] != "ssdp:all"@[0]);
    assert(service_types()[4] == "urn:microsoft.com:service:X_MS_MediaReceiverRegistrar:1"@);
    assert("urn:microsoft.com:service:X_MS_MediaReceiverRegistrar:1"@.len() != "ssdp:all"@.len() || "urn:microsoft.com:service:X_MS_MediaReceiverRegistrar:1"@[0] != "ssdp:all"@[0]);
    assert(announcement_targets(uuid) =~= seq![
        "upnp:rootdevice"@,
        "urn:schemas-upnp-org:device:MediaServer:1"@,
        "urn:schemas-upnp-org:service:ContentDirectory:1"@,
        "urn:schemas-upnp-org:service:ConnectionManager:1"@,
        "urn:microsoft.com:service:X_MS_MediaReceiverRegistrar:1"@,
        "uuid:"@ + uuid,
    ]);
}

} // verus!
