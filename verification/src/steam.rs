use vstd::prelude::*;

use crate::text::{
    char_lines, chars_eq, chars_of, contains_crlf, decimal, decimal_chars, ends_with, has_crlf,
    join, join_lines, lines, push_all, push_str, split_lines, string_from_chars, sub_chars, trim,
    trim_chars,
};

verus! {

broadcast use vstd::std_specs::vec::group_vec_axioms;

/// The line that opens the block of the hosts file that SwagEx owns.
pub open spec fn hosts_block_begin() -> Seq<char> {
    "# BEGIN SwagEx Steam"@
}

/// The line that closes the block of the hosts file that SwagEx owns.
pub open spec fn hosts_block_end() -> Seq<char> {
    "# END SwagEx Steam"@
}

/// Whether, after the lines `ls`, an owned block is open.
pub open spec fn inside_block_after(ls: Seq<Seq<char>>) -> bool
    decreases ls.len(),
{
    if ls.len() == 0 {
        false
    } else if trim(ls.last()) == hosts_block_begin() {
        true
    } else if trim(ls.last()) == hosts_block_end() {
        false
    } else {
        inside_block_after(ls.drop_last())
    }
}

/// The lines of `ls` that lie outside every owned block, markers excluded.
pub open spec fn kept_host_lines(ls: Seq<Seq<char>>) -> Seq<Seq<char>>
    decreases ls.len(),
{
    if ls.len() == 0 {
        Seq::empty()
    } else {
        let prev = kept_host_lines(ls.drop_last());
        let t = trim(ls.last());
        if t == hosts_block_begin() || t == hosts_block_end() || inside_block_after(ls.drop_last()) {
            prev
        } else {
            prev.push(ls.last())
        }
    }
}

/// The line ending of a hosts file: CRLF when it holds one anywhere, LF otherwise.
pub open spec fn line_ending(contents: Seq<char>) -> Seq<char> {
    if contains_crlf(contents) {
        seq!['\r', '\n']
    } else {
        seq!['\n']
    }
}

/// The hosts file without the blocks SwagEx owns: the other lines, joined
/// with the file's line ending, with a final line ending where the file had one.
pub open spec fn hosts_without_block(contents: Seq<char>) -> Seq<char> {
    let cleaned = join(kept_host_lines(lines(contents)), line_ending(contents));
    if contents.len() > 0 && contents.last() == '\n' && cleaned.len() > 0 {
        cleaned + line_ending(contents)
    } else {
        cleaned
    }
}

fn line_ending_chars(crlf: bool) -> (r: Vec<char>)
    ensures
        crlf ==> r@ == seq!['\r', '\n'],
        !crlf ==> r@ == seq!['\n'],
{
    let mut r: Vec<char> = Vec::new();
    if crlf {
        r.push('\r');
    }
    r.push('\n');
    proof {
        if crlf {
            assert(r@ =~= seq!['\r', '\n']);
        } else {
            assert(r@ =~= seq!['\n']);
        }
    }
    r
}

/// The hosts file without the blocks that SwagEx owns; every other line is kept.
pub fn without_owned_hosts_block(contents: &str) -> (r: String)
    ensures
        r@ == hosts_without_block(contents@),
{
    let text = chars_of(contents);
    let le = line_ending_chars(has_crlf(&text));
    let trailing = text.len() > 0 && text[text.len() - 1] == '\n';
    let ls = split_lines(&text);
    let begin = chars_of("# BEGIN SwagEx Steam");
    let end = chars_of("# END SwagEx Steam");
    let ghost all = char_lines(ls@);
    let mut inside = false;
    let mut kept: Vec<Vec<char>> = Vec::new();
    let mut k: usize = 0;
    while k < ls.len()
        invariant
            k <= ls.len(),
            all == char_lines(ls@),
            begin@ == hosts_block_begin(),
            end@ == hosts_block_end(),
            char_lines(kept@) == kept_host_lines(all.take(k as int)),
            inside == inside_block_after(all.take(k as int)),
        decreases ls.len() - k,
    {
        let ghost t = all.take(k + 1);
        proof {
            assert(t.drop_last() =~= all.take(k as int));
            assert(t.last() == ls@[k as int]@);
        }
        let trimmed = trim_chars(&ls[k]);
        if chars_eq(&trimmed, &begin) {
            inside = true;
        } else if chars_eq(&trimmed, &end) {
            inside = false;
        } else if !inside {
            let line = sub_chars(&ls[k], 0, ls[k].len());
            let ghost before = char_lines(kept@);
            kept.push(line);
            proof {
                assert(ls@[k as int]@.subrange(0, ls@[k as int]@.len() as int) =~= ls@[k as int]@);
                assert(char_lines(kept@) =~= before.push(ls@[k as int]@));
            }
        }
        k += 1;
    }
    proof {
        assert(all.take(ls.len() as int) =~= all);
    }
    let mut cleaned = join_lines(&kept, &le);
    if trailing && cleaned.len() > 0 {
        push_all(&mut cleaned, &le);
    }
    string_from_chars(&cleaned)
}

/// The game's regional hosts that the Steam route redirects, each with the
/// loopback address of its local relay.
pub open spec fn steam_hosts_model() -> Seq<(Seq<char>, Seq<u8>)> {
    seq![
        ("summonerswar-eu-lb.qpyou.cn"@, seq![127u8, 11u8, 12u8, 13u8]),
        ("summonerswar-gb-lb.qpyou.cn"@, seq![127u8, 11u8, 12u8, 14u8]),
        ("summonerswar-sea-lb.qpyou.cn"@, seq![127u8, 11u8, 12u8, 15u8]),
        ("summonerswar-jp-lb.qpyou.cn"@, seq![127u8, 11u8, 12u8, 16u8]),
        ("summonerswar-kr-lb.qpyou.cn"@, seq![127u8, 11u8, 12u8, 17u8]),
        ("summonerswar-cn-lb.qpyou.cn"@, seq![127u8, 11u8, 12u8, 18u8]),
    ]
}

pub open spec fn hosts_model(hosts: Seq<(&str, [u8; 4])>) -> Seq<(Seq<char>, Seq<u8>)> {
    hosts.map_values(|h: (&str, [u8; 4])| (h.0@, h.1@))
}

/// The game's regional hosts that the Steam route redirects, each with the
/// loopback address of its local relay; no two share an address.
pub fn steam_hosts() -> (r: Vec<(&'static str, [u8; 4])>)
    ensures
        hosts_model(r@) == steam_hosts_model(),
        forall|i: int, j: int|
            0 <= i < r@.len() && 0 <= j < r@.len() && i != j ==> r@[i].1@ != r@[j].1@,
{
    let r = vec![
        ("summonerswar-eu-lb.qpyou.cn", [127u8, 11u8, 12u8, 13u8]),
        ("summonerswar-gb-lb.qpyou.cn", [127u8, 11u8, 12u8, 14u8]),
        ("summonerswar-sea-lb.qpyou.cn", [127u8, 11u8, 12u8, 15u8]),
        ("summonerswar-jp-lb.qpyou.cn", [127u8, 11u8, 12u8, 16u8]),
        ("summonerswar-kr-lb.qpyou.cn", [127u8, 11u8, 12u8, 17u8]),
        ("summonerswar-cn-lb.qpyou.cn", [127u8, 11u8, 12u8, 18u8]),
    ];
    proof {
        assert(hosts_model(r@) =~= steam_hosts_model()) by {
            assert(r@[0].1@ =~= seq![127u8, 11u8, 12u8, 13u8]);
            assert(r@[1].1@ =~= seq![127u8, 11u8, 12u8, 14u8]);
            assert(r@[2].1@ =~= seq![127u8, 11u8, 12u8, 15u8]);
            assert(r@[3].1@ =~= seq![127u8, 11u8, 12u8, 16u8]);
            assert(r@[4].1@ =~= seq![127u8, 11u8, 12u8, 17u8]);
            assert(r@[5].1@ =~= seq![127u8, 11u8, 12u8, 18u8]);
        }
        assert forall|i: int, j: int|
            0 <= i < r@.len() && 0 <= j < r@.len() && i != j implies r@[i].1@ != r@[j].1@ by {
            assert(r@[i].1@ == steam_hosts_model()[i].1);
            assert(r@[j].1@ == steam_hosts_model()[j].1);
            assert(steam_hosts_model()[i].1[3] != steam_hosts_model()[j].1[3]);
        }
    }
    r
}

/// `a.b.c.d` for the address bytes `a`.
pub open spec fn dotted_quad(a: Seq<u8>) -> Seq<char> {
    decimal(a[0] as nat) + seq!['.'] + decimal(a[1] as nat) + seq!['.'] + decimal(a[2] as nat)
        + seq!['.'] + decimal(a[3] as nat)
}

/// The hosts lines that redirect each of `hosts` to its loopback address.
pub open spec fn host_entries(hosts: Seq<(Seq<char>, Seq<u8>)>, le: Seq<char>) -> Seq<char>
    decreases hosts.len(),
{
    if hosts.len() == 0 {
        Seq::empty()
    } else {
        host_entries(hosts.drop_last(), le) + dotted_quad(hosts.last().1) + seq![' '] + hosts.last().0
            + le
    }
}

/// The hosts file with the owned block at its end: the file without any
/// earlier owned block, a line ending if it does not end with one, then the
/// block that redirects every Steam host.
pub open spec fn hosts_with_block(contents: Seq<char>) -> Seq<char> {
    let le = line_ending(contents);
    let cleaned = hosts_without_block(contents);
    let base = if cleaned.len() > 0 && !(le.len() <= cleaned.len() && cleaned.subrange(
        cleaned.len() - le.len(),
        cleaned.len() as int,
    ) == le) {
        cleaned + le
    } else {
        cleaned
    };
    base + hosts_block_begin() + le + host_entries(steam_hosts_model(), le) + hosts_block_end() + le
}

pub fn dotted_quad_chars(a: &[u8; 4]) -> (r: Vec<char>)
    ensures
        r@ == dotted_quad(a@),
{
    let mut r = decimal_chars(a[0] as u64);
    r.push('.');
    let d1 = decimal_chars(a[1] as u64);
    push_all(&mut r, &d1);
    r.push('.');
    let d2 = decimal_chars(a[2] as u64);
    push_all(&mut r, &d2);
    r.push('.');
    let d3 = decimal_chars(a[3] as u64);
    push_all(&mut r, &d3);
    r
}

/// The hosts file with the owned block that redirects the Steam hosts to
/// their relays, replacing any earlier owned block.
pub fn hosts_with_owned_block(contents: &str) -> (r: String)
    ensures
        r@ == hosts_with_block(contents@),
{
    let text = chars_of(contents);
    let le = line_ending_chars(has_crlf(&text));
    let cleaned_string = without_owned_hosts_block(contents);
    let mut updated = chars_of(cleaned_string.as_str());
    if updated.len() > 0 && !ends_with(&updated, &le) {
        push_all(&mut updated, &le);
    }
    push_str(&mut updated, "# BEGIN SwagEx Steam");
    push_all(&mut updated, &le);
    let hosts = steam_hosts();
    let ghost hm = hosts_model(hosts@);
    let ghost base = updated@;
    let mut k: usize = 0;
    while k < hosts.len()
        invariant
            k <= hosts.len(),
            hm == hosts_model(hosts@),
            updated@ == base + host_entries(hm.take(k as int), le@),
        decreases hosts.len() - k,
    {
        let (name, address) = hosts[k];
        let quad = dotted_quad_chars(&address);
        push_all(&mut updated, &quad);
        updated.push(' ');
        push_str(&mut updated, name);
        push_all(&mut updated, &le);
        proof {
            assert(hm.take(k + 1).drop_last() =~= hm.take(k as int));
            assert(updated@ =~= base + host_entries(hm.take(k + 1), le@));
        }
        k += 1;
    }
    proof {
        assert(hm.take(hosts.len() as int) =~= hm);
    }
    push_str(&mut updated, "# END SwagEx Steam");
    push_all(&mut updated, &le);
    string_from_chars(&updated)
}

/// What the hosts file must become to drop a stale owned block: `Some` with
/// the new contents when it held one, and then the DNS cache must be flushed.
pub fn recover_stale_route(contents: &str) -> (r: Option<String>)
    ensures
        match r {
            Some(s) => s@ == hosts_without_block(contents@) && s@ != contents@,
            None => hosts_without_block(contents@) == contents@,
        },
{
    let cleaned = without_owned_hosts_block(contents);
    let a = chars_of(cleaned.as_str());
    let b = chars_of(contents);
    if chars_eq(&a, &b) {
        None
    } else {
        Some(cleaned)
    }
}

/// Whether the owned hosts block is installed.
pub struct SteamRouteState {
    hosts_active: bool,
}

impl SteamRouteState {
    pub closed spec fn active(&self) -> bool {
        self.hosts_active
    }

    /// No redirection installed.
    pub fn new() -> (r: SteamRouteState)
        ensures
            !r.active(),
    {
        SteamRouteState { hosts_active: false }
    }

    /// Records that the owned block has been installed.
    pub fn activate(&mut self)
        ensures
            final(self).active(),
    {
        self.hosts_active = true;
    }

    /// Whether the owned block is installed.
    pub fn is_active(&self) -> (r: bool)
        ensures
            r == self.active(),
    {
        self.hosts_active
    }

    /// Whether stopping must flush the DNS cache once the hosts file has been
    /// restored: when the route is active or a stale block was removed.
    pub fn stop_needs_dns_flush(&self, restored_stale_route: bool) -> (flush_dns: bool)
        ensures
            flush_dns == (self.active() || restored_stale_route),
    {
        self.hosts_active || restored_stale_route
    }

    /// Records that the route is stopped. It is called only once the hosts
    /// file has been restored and, where needed, the DNS cache flushed: after
    /// a failure the route stays active, and the next stop flushes again.
    pub fn stop(&mut self)
        ensures
            !final(self).active(),
    {
        self.hosts_active = false;
    }
}

/// An IP address, by its octets or its 16-bit groups.
#[derive(Debug, Clone, Copy, PartialEq, Eq)]
pub enum IpAddress {
    V4([u8; 4]),
    V6([u16; 8]),
}

/// `IpAddr::is_loopback`: 127.0.0.0/8 or ::1.
pub open spec fn is_loopback(a: IpAddress) -> bool {
    match a {
        IpAddress::V4(o) => o@[0] == 127,
        IpAddress::V6(g) => g@ == seq![0u16, 0u16, 0u16, 0u16, 0u16, 0u16, 0u16, 1u16],
    }
}

/// Whether `a` is a loopback address.
pub fn ip_is_loopback(a: &IpAddress) -> (r: bool)
    ensures
        r == is_loopback(*a),
{
    match a {
        IpAddress::V4(o) => o[0] == 127,
        IpAddress::V6(g) => {
            let mut i: usize = 0;
            while i < 8
                invariant
                    i <= 8,
                    g@.len() == 8,
                    *a == IpAddress::V6(*g),
                    forall|j: int| 0 <= j < i ==> g@[j] == (if j == 7 { 1u16 } else { 0u16 }),
                decreases 8 - i,
            {
                let want: u16 = if i == 7 { 1 } else { 0 };
                if g[i] != want {
                    assert(!is_loopback(*a)) by {
                        assert(seq![0u16, 0u16, 0u16, 0u16, 0u16, 0u16, 0u16, 1u16][i as int] == want);
                    }
                    return false;
                }
                i += 1;
            }
            assert(g@ =~= seq![0u16, 0u16, 0u16, 0u16, 0u16, 0u16, 0u16, 1u16]);
            true
        },
    }
}

/// The first address of a resolution that is not a loopback one: a stale
/// redirection to a local relay must not be taken for the game's server.
pub fn first_remote_address(addresses: &Vec<IpAddress>) -> (r: Option<IpAddress>)
    ensures
        match r {
            Some(a) => exists|i: int|
                0 <= i < addresses@.len() && addresses@[i] == a && !is_loopback(a) && forall|j: int|
                    0 <= j < i ==> is_loopback(#[trigger] addresses@[j]),
            None => forall|i: int| 0 <= i < addresses@.len() ==> is_loopback(#[trigger] addresses@[i]),
        },
{
    let mut i: usize = 0;
    while i < addresses.len()
        invariant
            i <= addresses.len(),
            forall|j: int| 0 <= j < i ==> is_loopback(#[trigger] addresses@[j]),
        decreases addresses.len() - i,
    {
        if !ip_is_loopback(&addresses[i]) {
            return Some(addresses[i]);
        }
        i += 1;
    }
    None
}

/// How many lookups the resolution of a Steam host makes before it gives up.
pub const RESOLUTION_ATTEMPTS: usize = 20;

/// What follows one lookup of a Steam host.
#[derive(Debug, Clone, Copy, PartialEq, Eq)]
pub enum ResolutionStep {
    /// The host's remote address was found.
    Resolved(IpAddress),
    /// Wait a moment and look it up again.
    RetryAfterDelay,
    /// Stop: flush the DNS cache and report the failure.
    GiveUp,
}

/// Decides, after lookup number `attempt` (from 0), what the resolution does:
/// a remote address ends it; otherwise it retries until the attempts run out.
/// `addresses` is what the lookup found, or nothing where it failed.
pub fn resolution_step(attempt: usize, addresses: Option<&Vec<IpAddress>>) -> (r: ResolutionStep)
    requires
        attempt < RESOLUTION_ATTEMPTS,
    ensures
        match r {
            ResolutionStep::Resolved(a) => addresses is Some && exists|i: int|
                0 <= i < addresses->0@.len() && addresses->0@[i] == a && !is_loopback(a) && forall|j: int|
                    0 <= j < i ==> is_loopback(#[trigger] addresses->0@[j]),
            ResolutionStep::RetryAfterDelay => attempt + 1 < RESOLUTION_ATTEMPTS && (addresses is None
                || forall|i: int| 0 <= i < addresses->0@.len() ==> is_loopback(#[trigger] addresses->0@[i])),
            ResolutionStep::GiveUp => attempt + 1 == RESOLUTION_ATTEMPTS && (addresses is None
                || forall|i: int| 0 <= i < addresses->0@.len() ==> is_loopback(#[trigger] addresses->0@[i])),
        },
{
    match addresses {
        Some(found) => match first_remote_address(found) {
            Some(a) => return ResolutionStep::Resolved(a),
            None => {},
        },
        None => {},
    }
    if attempt + 1 < RESOLUTION_ATTEMPTS {
        ResolutionStep::RetryAfterDelay
    } else {
        ResolutionStep::GiveUp
    }
}

/// The message of a resolution that gave up: the last lookup error where
/// there was one, else the stale redirection that kept answering.
pub fn resolution_failure_message(hostname: &str, last_error: Option<&str>) -> (r: String)
    ensures
        match last_error {
            Some(e) => r@ == "Windows ne parvient pas à résoudre "@ + hostname@ + " : "@ + e@,
            None => r@ == "Windows conserve une ancienne redirection réseau pour "@ + hostname@
                + ". Fermez Summoners War puis cliquez sur Réessayer."@,
        },
{
    match last_error {
        Some(e) => {
            let mut m = chars_of("Windows ne parvient pas à résoudre ");
            push_str(&mut m, hostname);
            push_str(&mut m, " : ");
            push_str(&mut m, e);
            string_from_chars(&m)
        },
        None => {
            let mut m = chars_of("Windows conserve une ancienne redirection réseau pour ");
            push_str(&mut m, hostname);
            push_str(&mut m, ". Fermez Summoners War puis cliquez sur Réessayer.");
            string_from_chars(&m)
        },
    }
}

} // verus!
