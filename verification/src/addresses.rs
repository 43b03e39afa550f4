//! The addresses of this machine and of its peers, found in what the system's
//! tools print.

use vstd::prelude::*;

use crate::ipv4;
use crate::ipv4::{parse_ip, Ipv4};
use crate::text;
use crate::text::{
    contains_text, lines_of, split_at_char, to_lowercase, trim_end_char, trim_text, words_of,
};

verus! {

/// The first result of `f` on the items of `s` that is there.
pub open spec fn first_some<A, B>(s: Seq<A>, f: spec_fn(A) -> Option<B>) -> Option<B>
    decreases s.len(),
{
    if s.len() == 0 {
        None
    } else {
        match f(s[0]) {
            Some(b) => Some(b),
            None => first_some(s.drop_first(), f),
        }
    }
}

/// An address of the virtual network that is used by default.
pub open spec fn in_easytier_net(ip: Ipv4) -> bool {
    ip.a == 10 && ip.b == 144
}

/// An address of a private network.
pub open spec fn in_private_net(ip: Ipv4) -> bool {
    ||| ip.a == 192 && ip.b == 168
    ||| ip.a == 10
    ||| ip.a == 172 && 16 <= ip.b <= 31
}

/// The address starting with 10 that `w` is, if it is one.
pub open spec fn ten_address(w: Seq<char>) -> Option<Ipv4> {
    match ipv4::ip_of(w) {
        Some(ip) => if ip.a == 10 {
            Some(ip)
        } else {
            None
        },
        None => None,
    }
}

/// The address of this node in a line of the list of nodes.
pub open spec fn own_address_in(line: Seq<char>) -> Option<Ipv4> {
    if text::contains(line, "10.144."@) || text::contains(line, "10.0.0."@) {
        first_some(text::words(line), |w: Seq<char>| ten_address(w))
    } else {
        None
    }
}

/// The address of another node that `w` is, if it is one.
pub open spec fn other_address(w: Seq<char>, own: Option<Ipv4>) -> Option<Ipv4> {
    match ten_address(w) {
        Some(ip) => if own == Some(ip) {
            None
        } else {
            Some(ip)
        },
        None => None,
    }
}

/// The address in a line of `ip addr show`: what stands before the slash in its
/// second word.
pub open spec fn inet_address(line: Seq<char>) -> Option<Ipv4> {
    if text::contains(line, "inet "@) && text::words(line).len() >= 2 {
        ipv4::ip_of(text::split(text::words(line)[1], '/')[0])
    } else {
        None
    }
}

/// The address starting with 10 in a line of `ip addr show`.
pub open spec fn inet_ten_address(line: Seq<char>) -> Option<Ipv4> {
    match inet_address(line) {
        Some(ip) => if ip.a == 10 {
            Some(ip)
        } else {
            None
        },
        None => None,
    }
}

/// The address in a line of `ipconfig`: what stands after its first colon and
/// before its second, without the white space around it and dots after it.
pub open spec fn ipconfig_address(line: Seq<char>) -> Option<Ipv4> {
    let parts = text::split(line, ':');
    if text::contains(line, "IPv4"@) && parts.len() >= 2 {
        ipv4::ip_of(text::trimmed_end(text::trimmed(parts[1]), text::is_char('.')))
    } else {
        None
    }
}

/// A line that starts the part on the virtual adapter. Given in lower case.
pub open spec fn names_virtual_adapter(low: Seq<char>) -> bool {
    text::contains(low, "easytier"@) || text::contains(low, "tun"@)
}

/// A line that starts the part on an adapter of the machine. Given in lower
/// case.
pub open spec fn names_real_adapter(low: Seq<char>) -> bool {
    ||| text::contains(low, "ethernet"@)
    ||| text::contains(low, "wi-fi"@)
    ||| text::contains(low, "wireless"@)
    ||| text::contains(low, "以太网"@)
    ||| text::contains(low, "无线"@)
}

/// The first address after a line that names the virtual adapter. `low` holds
/// the lines in lower case.
pub open spec fn virtual_address(lines: Seq<Seq<char>>, low: Seq<Seq<char>>, named: bool) -> Option<
    Ipv4,
>
    decreases lines.len(),
{
    if lines.len() == 0 {
        None
    } else {
        let now = named || names_virtual_adapter(low[0]);
        match (if now {
            ipconfig_address(lines[0])
        } else {
            None
        }) {
            Some(ip) => Some(ip),
            None => virtual_address(lines.drop_first(), low.drop_first(), now),
        }
    }
}

/// The last line that named an adapter named one of the machine. `low` holds
/// the lines in lower case.
pub open spec fn on_real_adapter(low: Seq<Seq<char>>) -> bool
    decreases low.len(),
{
    if low.len() == 0 {
        false
    } else {
        !(names_virtual_adapter(low.last()) || text::contains(low.last(), "vpn"@)) && (
        names_real_adapter(low.last()) || on_real_adapter(low.drop_last()))
    }
}

/// An address by which other machines may reach this one.
pub open spec fn usable(ip: Ipv4) -> bool {
    ip.a != 127 && !in_easytier_net(ip)
}

/// The last usable address of an adapter of the machine. `low` holds the lines
/// in lower case.
pub open spec fn real_address(lines: Seq<Seq<char>>, low: Seq<Seq<char>>) -> Option<Ipv4>
    decreases lines.len(),
{
    if lines.len() == 0 {
        None
    } else {
        let before = real_address(lines.drop_last(), low.drop_last());
        if on_real_adapter(low) {
            match ipconfig_address(lines.last()) {
                Some(ip) => if usable(ip) {
                    Some(ip)
                } else {
                    before
                },
                None => before,
            }
        } else {
            before
        }
    }
}

/// The address of the machine that `ip addr show` tells: the first usable one,
/// unless one of a private network follows; then the last such.
pub open spec fn inet_real_address(lines: Seq<Seq<char>>) -> Option<Ipv4>
    decreases lines.len(),
{
    if lines.len() == 0 {
        None
    } else {
        let before = inet_real_address(lines.drop_last());
        let line = lines.last();
        match (if text::contains(line, "127.0.0.1"@) {
            None
        } else {
            inet_address(line)
        }) {
            Some(ip) => if usable(ip) && (before is None || in_private_net(ip)) {
                Some(ip)
            } else {
                before
            },
            None => before,
        }
    }
}

/// The lines in lower case.
pub open spec fn lowercased_all(lines: Seq<Seq<char>>) -> Seq<Seq<char>> {
    lines.map_values(|l: Seq<char>| text::lowercased(l))
}

/// Whether the address is of the virtual network that is used by default.
pub fn is_easytier_ip(ip: Ipv4) -> (res: bool)
    ensures
        res == in_easytier_net(ip),
{
    ip.a == 10 && ip.b == 144
}

/// Whether the address is of a private network.
pub fn is_lan_ip(ip: Ipv4) -> (res: bool)
    ensures
        res == in_private_net(ip),
{
    (ip.a == 192 && ip.b == 168) || ip.a == 10 || (ip.a == 172 && ip.b >= 16 && ip.b <= 31)
}

/// The first word of a line that is an address starting with 10, and not `own`.
fn first_ten_word(line: &str, own: Option<Ipv4>) -> (res: Option<Ipv4>)
    ensures
        res == first_some(text::words(line@), |w: Seq<char>| other_address(w, own)),
{
    let ghost f = |w: Seq<char>| other_address(w, own);
    let words = words_of(line);
    let ghost all = text::words(line@);
    let mut i: usize = 0;
    assert(all.skip(0) =~= all);
    while i < words.len()
        invariant
            i <= words@.len(),
            all == text::texts(words@),
            all == text::words(line@),
            f == (|w: Seq<char>| other_address(w, own)),
            first_some(all, f) == first_some(all.skip(i as int), f),
        decreases words@.len() - i,
    {
        proof {
            assert(all.skip(i as int)[0] == words@[i as int]@);
            assert(all.skip(i as int).drop_first() =~= all.skip(i + 1));
        }
        match parse_ip(&words[i]) {
            Some(ip) => if ip.a == 10 {
                let is_own = match own {
                    Some(my) => ip == my,
                    None => false,
                };
                if !is_own {
                    return Some(ip);
                }
            },
            None => {},
        }
        i += 1;
    }
    assert(all.skip(i as int).len() == 0);
    None
}

proof fn lemma_no_own(words: Seq<Seq<char>>)
    ensures
        first_some(words, |w: Seq<char>| other_address(w, None)) == first_some(
            words,
            |w: Seq<char>| ten_address(w),
        ),
    decreases words.len(),
{
    if words.len() > 0 {
        lemma_no_own(words.drop_first());
    }
}

/// The virtual address of this node in the list of nodes that `easytier-cli`
/// prints.
pub fn parse_virtual_ip_from_cli(output: &str) -> (res: Option<Ipv4>)
    ensures
        res == first_some(text::lines(output@), |l: Seq<char>| own_address_in(l)),
{
    let ghost f = |l: Seq<char>| own_address_in(l);
    let lines = lines_of(output);
    let ghost all = text::lines(output@);
    let mut i: usize = 0;
    assert(all.skip(0) =~= all);
    while i < lines.len()
        invariant
            i <= lines@.len(),
            all == text::texts(lines@),
            all == text::lines(output@),
            f == (|l: Seq<char>| own_address_in(l)),
            first_some(all, f) == first_some(all.skip(i as int), f),
        decreases lines@.len() - i,
    {
        let line = &lines[i];
        proof {
            assert(all.skip(i as int)[0] == line@);
            assert(all.skip(i as int).drop_first() =~= all.skip(i + 1));
            lemma_no_own(text::words(line@));
        }
        if contains_text(line, "10.144.") || contains_text(line, "10.0.0.") {
            let ip = first_ten_word(line, None);
            if ip.is_some() {
                return ip;
            }
        }
        i += 1;
    }
    assert(all.skip(i as int).len() == 0);
    None
}

/// The virtual address of another node in the list of nodes that
/// `easytier-cli` prints: the first one that is not this node's `own`.
pub fn find_peer_address(output: &str, own: Option<Ipv4>) -> (res: Option<Ipv4>)
    ensures
        res == first_some(
            text::lines(output@),
            |l: Seq<char>|
                first_some(text::words(l), |w: Seq<char>| other_address(w, own)),
        ),
{
    let ghost f = |l: Seq<char>|
        first_some(text::words(l), |w: Seq<char>| other_address(w, own));
    let lines = lines_of(output);
    let ghost all = text::lines(output@);
    let mut i: usize = 0;
    assert(all.skip(0) =~= all);
    while i < lines.len()
        invariant
            i <= lines@.len(),
            all == text::texts(lines@),
            all == text::lines(output@),
            f == (|l: Seq<char>|
                first_some(text::words(l), |w: Seq<char>| other_address(w, own))),
            first_some(all, f) == first_some(all.skip(i as int), f),
        decreases lines@.len() - i,
    {
        let line = &lines[i];
        proof {
            assert(all.skip(i as int)[0] == line@);
            assert(all.skip(i as int).drop_first() =~= all.skip(i + 1));
        }
        let ip = first_ten_word(line, own);
        if ip.is_some() {
            assert(f(line@) == ip);
            return ip;
        }
        assert(f(line@) is None);
        i += 1;
    }
    assert(all.skip(i as int).len() == 0);
    None
}

/// The address in a line of `ip addr show`.
fn address_of_inet(line: &str) -> (res: Option<Ipv4>)
    ensures
        res == inet_address(line@),
{
    if !contains_text(line, "inet ") {
        return None;
    }
    let words = words_of(line);
    if words.len() < 2 {
        assert(text::texts(words@).len() < 2);
        return None;
    }
    assert(text::texts(words@)[1] == words@[1]@);
    let parts = split_at_char(&words[1], '/');
    assert(text::texts(parts@)[0] == parts@[0]@);
    parse_ip(&parts[0])
}

/// The virtual address of this node in what `ip addr show` prints: the first
/// that starts with 10.
pub fn parse_easytier_ip_unix(output: &str) -> (res: Option<Ipv4>)
    ensures
        res == first_some(text::lines(output@), |l: Seq<char>| inet_ten_address(l)),
{
    let ghost f = |l: Seq<char>| inet_ten_address(l);
    let lines = lines_of(output);
    let ghost all = text::lines(output@);
    let mut i: usize = 0;
    assert(all.skip(0) =~= all);
    while i < lines.len()
        invariant
            i <= lines@.len(),
            all == text::texts(lines@),
            all == text::lines(output@),
            f == (|l: Seq<char>| inet_ten_address(l)),
            first_some(all, f) == first_some(all.skip(i as int), f),
        decreases lines@.len() - i,
    {
        proof {
            assert(all.skip(i as int)[0] == lines@[i as int]@);
            assert(all.skip(i as int).drop_first() =~= all.skip(i + 1));
        }
        match address_of_inet(&lines[i]) {
            Some(ip) => if ip.a == 10 {
                return Some(ip);
            },
            None => {},
        }
        i += 1;
    }
    assert(all.skip(i as int).len() == 0);
    None
}

/// The address in a line of `ipconfig`.
fn address_of_ipconfig(line: &str) -> (res: Option<Ipv4>)
    ensures
        res == ipconfig_address(line@),
{
    if !contains_text(line, "IPv4") {
        return None;
    }
    let parts = split_at_char(line, ':');
    if parts.len() < 2 {
        assert(text::texts(parts@).len() < 2);
        return None;
    }
    assert(text::texts(parts@)[1] == parts@[1]@);
    let trimmed = trim_text(&parts[1]);
    parse_ip(&trim_end_char(&trimmed, '.'))
}

fn is_virtual_adapter_line(low: &str) -> (res: bool)
    ensures
        res == names_virtual_adapter(low@),
{
    contains_text(low, "easytier") || contains_text(low, "tun")
}

fn is_real_adapter_line(low: &str) -> (res: bool)
    ensures
        res == names_real_adapter(low@),
{
    contains_text(low, "ethernet") || contains_text(low, "wi-fi") || contains_text(low, "wireless")
        || contains_text(low, "以太网") || contains_text(low, "无线")
}

/// The lines in lower case.
fn lowercase_all(lines: &Vec<String>) -> (res: Vec<String>)
    ensures
        text::texts(res@) == lowercased_all(text::texts(lines@)),
{
    let mut res: Vec<String> = Vec::new();
    let mut i: usize = 0;
    while i < lines.len()
        invariant
            i <= lines@.len(),
            res@.len() == i,
            forall|k: int| 0 <= k < i ==> #[trigger] res@[k]@ == text::lowercased(lines@[k]@),
        decreases lines@.len() - i,
    {
        res.push(to_lowercase(&lines[i]));
        i += 1;
    }
    assert(text::texts(res@) =~= lowercased_all(text::texts(lines@)));
    res
}

/// The first address after a line that names the virtual adapter, given the
/// lines as they are and in lower case.
pub fn virtual_address_of(lines: &Vec<String>, low: &Vec<String>) -> (res: Option<Ipv4>)
    requires
        lines@.len() == low@.len(),
    ensures
        res == virtual_address(text::texts(lines@), text::texts(low@), false),
{
    let ghost all = text::texts(lines@);
    let ghost all_low = text::texts(low@);
    let mut named = false;
    let mut i: usize = 0;
    assert(all.skip(0) =~= all);
    assert(all_low.skip(0) =~= all_low);
    while i < lines.len()
        invariant
            i <= lines@.len(),
            lines@.len() == low@.len(),
            all == text::texts(lines@),
            all_low == text::texts(low@),
            virtual_address(all, all_low, false) == virtual_address(
                all.skip(i as int),
                all_low.skip(i as int),
                named,
            ),
        decreases lines@.len() - i,
    {
        proof {
            assert(all.skip(i as int)[0] == lines@[i as int]@);
            assert(all_low.skip(i as int)[0] == low@[i as int]@);
            assert(all.skip(i as int).drop_first() =~= all.skip(i + 1));
            assert(all_low.skip(i as int).drop_first() =~= all_low.skip(i + 1));
        }
        if is_virtual_adapter_line(&low[i]) {
            named = true;
        }
        if named {
            let ip = address_of_ipconfig(&lines[i]);
            if ip.is_some() {
                return ip;
            }
        }
        i += 1;
    }
    assert(all.skip(i as int).len() == 0);
    None
}

/// The virtual address of this node in what `ipconfig` prints.
pub fn parse_easytier_ip_windows(output: &str) -> (res: Option<Ipv4>)
    ensures
        res == virtual_address(
            text::lines(output@),
            lowercased_all(text::lines(output@)),
            false,
        ),
{
    let lines = lines_of(output);
    let low = lowercase_all(&lines);
    proof {
        assert(text::texts(lines@).len() == lines@.len());
        assert(text::texts(low@).len() == low@.len());
    }
    virtual_address_of(&lines, &low)
}

/// The last usable address of an adapter of the machine, given the lines as
/// they are and in lower case.
pub fn real_address_of(lines: &Vec<String>, low: &Vec<String>) -> (res: Option<Ipv4>)
    requires
        lines@.len() == low@.len(),
    ensures
        res == real_address(text::texts(lines@), text::texts(low@)),
{
    let ghost all = text::texts(lines@);
    let ghost all_low = text::texts(low@);
    let mut on_real = false;
    let mut best: Option<Ipv4> = None;
    let mut i: usize = 0;
    while i < lines.len()
        invariant
            i <= lines@.len(),
            lines@.len() == low@.len(),
            all == text::texts(lines@),
            all_low == text::texts(low@),
            on_real == on_real_adapter(all_low.take(i as int)),
            best == real_address(all.take(i as int), all_low.take(i as int)),
        decreases lines@.len() - i,
    {
        proof {
            assert(all.take(i + 1).drop_last() =~= all.take(i as int));
            assert(all_low.take(i + 1).drop_last() =~= all_low.take(i as int));
            assert(all.take(i + 1).last() == lines@[i as int]@);
            assert(all_low.take(i + 1).last() == low@[i as int]@);
        }
        if is_real_adapter_line(&low[i]) {
            on_real = true;
        }
        if is_virtual_adapter_line(&low[i]) || contains_text(&low[i], "vpn") {
            on_real = false;
        }
        if on_real {
            match address_of_ipconfig(&lines[i]) {
                Some(ip) => if ip.a != 127 && !is_easytier_ip(ip) {
                    best = Some(ip);
                },
                None => {},
            }
        }
        i += 1;
    }
    assert(all.take(i as int) =~= all);
    assert(all_low.take(i as int) =~= all_low);
    best
}

/// The address of the machine in what `ipconfig` prints.
pub fn find_physical_ip_windows(output: &str) -> (res: Option<Ipv4>)
    ensures
        res == real_address(text::lines(output@), lowercased_all(text::lines(output@))),
{
    let lines = lines_of(output);
    let low = lowercase_all(&lines);
    proof {
        assert(text::texts(lines@).len() == lines@.len());
        assert(text::texts(low@).len() == low@.len());
    }
    real_address_of(&lines, &low)
}

/// The address of the machine in what `ip addr show` prints.
pub fn find_physical_ip_unix(output: &str) -> (res: Option<Ipv4>)
    ensures
        res == inet_real_address(text::lines(output@)),
{
    let lines = lines_of(output);
    let ghost all = text::texts(lines@);
    let mut best: Option<Ipv4> = None;
    let mut i: usize = 0;
    while i < lines.len()
        invariant
            i <= lines@.len(),
            all == text::texts(lines@),
            best == inet_real_address(all.take(i as int)),
        decreases lines@.len() - i,
    {
        let line = &lines[i];
        proof {
            assert(all.take(i + 1).drop_last() =~= all.take(i as int));
            assert(all.take(i + 1).last() == line@);
        }
        if !contains_text(line, "127.0.0.1") {
            match address_of_inet(line) {
                Some(ip) => if ip.a != 127 && !is_easytier_ip(ip) && (best.is_none() || is_lan_ip(
                    ip,
                )) {
                    best = Some(ip);
                },
                None => {},
            }
        }
        i += 1;
    }
    assert(all.take(i as int) =~= all);
    best
}

/// The virtual address of this node: the one in the list of nodes, if that
/// could be had and tells it, else the one that the interfaces tell.
pub fn choose_virtual_ip(from_list: Option<Ipv4>, from_interfaces: Option<Ipv4>) -> (res: Option<
    Ipv4,
>)
    ensures
        res == if from_list is Some {
            from_list
        } else {
            from_interfaces
        },
{
    match from_list {
        Some(ip) => Some(ip),
        None => from_interfaces,
    }
}

proof fn lemma_first_some<A, B>(s: Seq<A>, f: spec_fn(A) -> Option<B>) -> (k: int)
    ensures
        first_some(s, f) is Some ==> 0 <= k < s.len() && f(s[k]) == first_some(s, f) && forall|
            j: int,
        |
            0 <= j < k ==> f(#[trigger] s[j]) is None,
        first_some(s, f) is None ==> forall|j: int|
            0 <= j < s.len() ==> f(#[trigger] s[j]) is None,
    decreases s.len(),
{
    if s.len() == 0 {
        0
    } else if f(s[0]) is Some {
        0
    } else {
        let rest = s.drop_first();
        let k = lemma_first_some(rest, f);
        if first_some(rest, f) is Some {
            assert(s[k + 1] == rest[k]);
            assert forall|j: int| 0 <= j < k + 1 implies f(#[trigger] s[j]) is None by {
                if j > 0 {
                    assert(rest[j - 1] == s[j]);
                }
            }
        } else {
            assert forall|j: int| 0 <= j < s.len() implies f(#[trigger] s[j]) is None by {
                if j > 0 {
                    assert(rest[j - 1] == s[j]);
                }
            }
        }
        k + 1
    }
}

proof fn lemma_ip_of(s: Seq<char>, ip: Ipv4)
    ensures
        ipv4::ip_of(s) == Some(ip) <==> ipv4::dotted(ip) == s,
{
    ipv4::parse_undoes_print(ip);
}

/// `w` is the notation of an address that starts with 10 and is not `own`.
pub open spec fn is_ten_but(w: Seq<char>, own: Option<Ipv4>) -> bool {
    exists|ip: Ipv4| #[trigger] ipv4::dotted(ip) == w && ip.a == 10 && own != Some(ip)
}

/// The line is of one of the networks that are looked for.
pub open spec fn is_told_line(line: Seq<char>) -> bool {
    text::contains(line, "10.144."@) || text::contains(line, "10.0.0."@)
}

proof fn lemma_ten_words(words: Seq<Seq<char>>, own: Option<Ipv4>) -> (j: int)
    ensures
        ({
            let found = first_some(words, |w: Seq<char>| other_address(w, own));
            &&& found matches Some(ip) ==> ip.a == 10 && own != Some(ip) && 0 <= j < words.len()
                && words[j] == ipv4::dotted(ip) && forall|i: int|
                0 <= i < j ==> !is_ten_but(#[trigger] words[i], own)
            &&& found is None ==> forall|i: int|
                0 <= i < words.len() ==> !is_ten_but(#[trigger] words[i], own)
        }),
{
    let f = |w: Seq<char>| other_address(w, own);
    let j = lemma_first_some(words, f);
    let found = first_some(words, f);
    assert forall|i: int| 0 <= i < words.len() && f(words[i]) is None implies !is_ten_but(
        #[trigger] words[i],
        own,
    ) by {
        if is_ten_but(words[i], own) {
            let ip = choose|ip: Ipv4| #[trigger]
                ipv4::dotted(ip) == words[i] && ip.a == 10 && own != Some(ip);
            lemma_ip_of(words[i], ip);
        }
    }
    if let Some(ip) = found {
        assert(f(words[j]) == Some(ip));
        lemma_ip_of(words[j], ip);
    }
    j
}

/// The address of another node that is found is the first in the list, line by
/// line and word by word, that starts with 10 and is not this node's own; and one
/// is found if there is one.
pub proof fn the_first_other_address_is_found(
    output: &str,
    own: Option<Ipv4>,
    res: Option<Ipv4>,
) -> (at: (int, int))
    requires
        call_ensures(find_peer_address, (output, own), res),
    ensures
        ({
            let lines = text::lines(output@);
            &&& res matches Some(ip) ==> {
                &&& ip.a == 10 && own != Some(ip)
                &&& 0 <= at.0 < lines.len()
                &&& 0 <= at.1 < text::words(lines[at.0]).len()
                &&& text::words(lines[at.0])[at.1] == ipv4::dotted(ip)
                &&& forall|i: int|
                    0 <= i < at.1 ==> !is_ten_but(#[trigger] text::words(lines[at.0])[i], own)
                &&& forall|k: int, i: int|
                    0 <= k < at.0 && 0 <= i < text::words(lines[k]).len() ==> !is_ten_but(
                        #[trigger] text::words(lines[k])[i],
                        own,
                    )
            }
            &&& res is None ==> forall|k: int, i: int|
                0 <= k < lines.len() && 0 <= i < text::words(lines[k]).len() ==> !is_ten_but(
                    #[trigger] text::words(lines[k])[i],
                    own,
                )
        }),
{
    let lines = text::lines(output@);
    let f = |l: Seq<char>| first_some(text::words(l), |w: Seq<char>| other_address(w, own));
    let n = lemma_first_some(lines, f);
    let j = lemma_ten_words(text::words(lines[n]), own);
    assert forall|k: int, i: int|
        0 <= k < lines.len() && f(lines[k]) is None && 0 <= i < text::words(
            lines[k],
        ).len() implies !is_ten_but(#[trigger] text::words(lines[k])[i], own) by {
        let _ = lemma_ten_words(text::words(lines[k]), own);
    }
    assert(res == first_some(lines, f));
    if res is Some {
        assert(f(lines[n]) == res);
        assert forall|k: int, i: int|
            0 <= k < n && 0 <= i < text::words(lines[k]).len() implies !is_ten_but(
            #[trigger] text::words(lines[k])[i],
            own,
        ) by {
            assert(f(lines[k]) is None);
        }
    } else {
        assert forall|k: int, i: int|
            0 <= k < lines.len() && 0 <= i < text::words(lines[k]).len() implies !is_ten_but(
            #[trigger] text::words(lines[k])[i],
            own,
        ) by {
            assert(f(lines[k]) is None);
        }
    }
    (n, j)
}

/// This node's address is the first in the list that starts with 10, on a line of
/// one of the networks that are looked for; and it is found if there is one.
pub proof fn the_first_own_address_is_found(output: &str, res: Option<Ipv4>) -> (at: (int, int))
    requires
        call_ensures(parse_virtual_ip_from_cli, (output,), res),
    ensures
        ({
            let lines = text::lines(output@);
            &&& res matches Some(ip) ==> {
                &&& ip.a == 10
                &&& 0 <= at.0 < lines.len()
                &&& is_told_line(lines[at.0])
                &&& 0 <= at.1 < text::words(lines[at.0]).len()
                &&& text::words(lines[at.0])[at.1] == ipv4::dotted(ip)
                &&& forall|i: int|
                    0 <= i < at.1 ==> !is_ten_but(#[trigger] text::words(lines[at.0])[i], None)
                &&& forall|k: int, i: int|
                    0 <= k < at.0 && is_told_line(lines[k]) && 0 <= i < text::words(
                        lines[k],
                    ).len() ==> !is_ten_but(#[trigger] text::words(lines[k])[i], None)
            }
            &&& res is None ==> forall|k: int, i: int|
                0 <= k < lines.len() && is_told_line(lines[k]) && 0 <= i < text::words(
                    lines[k],
                ).len() ==> !is_ten_but(#[trigger] text::words(lines[k])[i], None)
        }),
{
    let lines = text::lines(output@);
    let f = |l: Seq<char>| own_address_in(l);
    let n = lemma_first_some(lines, f);
    lemma_no_own(text::words(lines[n]));
    let j = lemma_ten_words(text::words(lines[n]), None);
    assert forall|k: int, i: int|
        0 <= k < lines.len() && f(lines[k]) is None && is_told_line(lines[k]) && 0 <= i
            < text::words(lines[k]).len() implies !is_ten_but(
        #[trigger] text::words(lines[k])[i],
        None,
    ) by {
        lemma_no_own(text::words(lines[k]));
        let _ = lemma_ten_words(text::words(lines[k]), None);
    }
    assert(res == first_some(lines, f));
    if res is Some {
        assert(f(lines[n]) == res);
        assert forall|k: int, i: int|
            0 <= k < n && is_told_line(lines[k]) && 0 <= i < text::words(
                lines[k],
            ).len() implies !is_ten_but(#[trigger] text::words(lines[k])[i], None) by {
            assert(f(lines[k]) is None);
        }
    } else {
        assert forall|k: int, i: int|
            0 <= k < lines.len() && is_told_line(lines[k]) && 0 <= i < text::words(
                lines[k],
            ).len() implies !is_ten_but(#[trigger] text::words(lines[k])[i], None) by {
            assert(f(lines[k]) is None);
        }
    }
    (n, j)
}

/// The number of an address.
pub open spec fn number_of(ip: Ipv4) -> int {
    ip.a * 0x100_0000 + ip.b * 0x1_0000 + ip.c * 0x100 + ip.d
}

/// The private networks are those of RFC 1918, the default of the virtual network
/// is 10.144.0.0/16.
pub proof fn networks_are_ranges_of_numbers(ip: Ipv4, lan: bool, easytier: bool)
    requires
        call_ensures(is_lan_ip, (ip,), lan),
        call_ensures(is_easytier_ip, (ip,), easytier),
    ensures
        lan <==> {
            ||| 0x0a00_0000 <= number_of(ip) <= 0x0aff_ffff
            ||| 0xac10_0000 <= number_of(ip) <= 0xac1f_ffff
            ||| 0xc0a8_0000 <= number_of(ip) <= 0xc0a8_ffff
        },
        easytier <==> 0x0a90_0000 <= number_of(ip) <= 0x0a90_ffff,
{
}

/// The address of the list comes before that of the interfaces.
pub proof fn lists_come_before_interfaces(
    from_list: Option<Ipv4>,
    from_interfaces: Option<Ipv4>,
    res: Option<Ipv4>,
)
    requires
        call_ensures(choose_virtual_ip, (from_list, from_interfaces), res),
    ensures
        from_list matches Some(ip) ==> res == Some(ip),
        from_list is None ==> res == from_interfaces,
{
}

/// The line of `ip addr show` tells the address `ip`.
pub open spec fn inet_tells(line: Seq<char>, ip: Ipv4) -> bool {
    &&& text::contains(line, "inet "@)
    &&& text::words(line).len() >= 2
    &&& text::split(text::words(line)[1], '/')[0] == ipv4::dotted(ip)
}

proof fn lemma_inet_tells(line: Seq<char>, ip: Ipv4)
    ensures
        inet_address(line) == Some(ip) <==> inet_tells(line, ip),
{
    if text::words(line).len() >= 2 {
        lemma_ip_of(text::split(text::words(line)[1], '/')[0], ip);
    }
}

/// The first address starting with 10 that a line of `ip addr show` tells is this
/// node's virtual one; and it is found if there is one.
pub proof fn the_first_ten_of_interfaces_is_found(
    output: &str,
    res: Option<Ipv4>,
) -> (n: int)
    requires
        call_ensures(parse_easytier_ip_unix, (output,), res),
    ensures
        ({
            let lines = text::lines(output@);
            &&& res matches Some(ip) ==> {
                &&& ip.a == 10
                &&& 0 <= n < lines.len()
                &&& inet_tells(lines[n], ip)
                &&& forall|k: int, other: Ipv4|
                    0 <= k < n && #[trigger] inet_tells(lines[k], other) ==> other.a != 10
            }
            &&& res is None ==> forall|k: int, other: Ipv4|
                0 <= k < lines.len() && #[trigger] inet_tells(lines[k], other) ==> other.a != 10
        }),
{
    let lines = text::lines(output@);
    let f = |l: Seq<char>| inet_ten_address(l);
    let n = lemma_first_some(lines, f);
    assert(res == first_some(lines, f));
    assert forall|k: int, other: Ipv4|
        0 <= k < lines.len() && f(lines[k]) is None && #[trigger] inet_tells(
            lines[k],
            other,
        ) implies other.a != 10 by {
        lemma_inet_tells(lines[k], other);
    }
    if let Some(ip) = res {
        assert(f(lines[n]) == res);
        lemma_inet_tells(lines[n], ip);
        assert forall|k: int, other: Ipv4|
            0 <= k < n && #[trigger] inet_tells(lines[k], other) implies other.a != 10 by {
            assert(f(lines[k]) is None);
        }
    } else {
        assert forall|k: int, other: Ipv4|
            0 <= k < lines.len() && #[trigger] inet_tells(lines[k], other) implies other.a != 10 by {
            assert(f(lines[k]) is None);
        }
    }
    n
}

/// The line of `ip addr show` tells an address by which other machines may reach
/// this one: not one of the machine to itself, and not one of the virtual network.
pub open spec fn inet_offers(line: Seq<char>, ip: Ipv4) -> bool {
    &&& !text::contains(line, "127.0.0.1"@)
    &&& inet_tells(line, ip)
    &&& ip.a != 127
    &&& !(ip.a == 10 && ip.b == 144)
}

/// The address is one of a private network.
pub open spec fn is_private(ip: Ipv4) -> bool {
    ||| ip.a == 10
    ||| ip.a == 172 && 16 <= ip.b < 32
    ||| ip.a == 192 && ip.b == 168
}

/// `ip` is the last private address that is offered, or, without one, the first
/// that is offered; `n` is its line.
pub open spec fn best_offer(lines: Seq<Seq<char>>, ip: Ipv4, n: int) -> bool {
    &&& 0 <= n < lines.len()
    &&& inet_offers(lines[n], ip)
    &&& is_private(ip) ==> forall|k: int, other: Ipv4|
        n < k < lines.len() && #[trigger] inet_offers(lines[k], other) ==> !is_private(other)
    &&& !is_private(ip) ==> forall|k: int, other: Ipv4|
        0 <= k < lines.len() && #[trigger] inet_offers(lines[k], other) ==> n <= k && !is_private(
            other,
        )
}

#[verifier::spinoff_prover]
proof fn lemma_best_offer(lines: Seq<Seq<char>>) -> (n: int)
    ensures
        inet_real_address(lines) matches Some(ip) ==> best_offer(lines, ip, n),
        inet_real_address(lines) is None ==> forall|k: int, other: Ipv4|
            0 <= k < lines.len() ==> !#[trigger] inet_offers(lines[k], other),
    decreases lines.len(),
{
    if lines.len() == 0 {
        return 0;
    }
    let head = lines.drop_last();
    let last = lines.len() - 1;
    let line = lines.last();
    let past = lemma_best_offer(head);
    assert forall|k: int, other: Ipv4| 0 <= k < last implies inet_offers(head[k], other)
        == #[trigger] inet_offers(lines[k], other) by {
        assert(head[k] == lines[k]);
    }
    assert forall|other: Ipv4| #[trigger] inet_offers(line, other) implies inet_address(line)
        == Some(other) by {
        lemma_inet_tells(line, other);
    }
    let before = inet_real_address(head);
    if let Some(ip) = inet_address(line) {
        lemma_inet_tells(line, ip);
        if !text::contains(line, "127.0.0.1"@) && usable(ip) && (before is None || in_private_net(
            ip,
        )) {
            assert(inet_offers(lines[last], ip));
            assert(best_offer(lines, ip, last)) by {
                assert forall|k: int, other: Ipv4|
                    !is_private(ip) && 0 <= k < lines.len() && #[trigger] inet_offers(
                        lines[k],
                        other,
                    ) implies last <= k && !is_private(other) by {
                    if k < last {
                        assert(inet_offers(head[k], other));
                    }
                }
            }
            return last;
        }
    }
    if let Some(ip) = before {
        assert(best_offer(head, ip, past));
        assert(inet_offers(lines[past], ip));
        assert forall|k: int, other: Ipv4|
            is_private(ip) && past < k < lines.len() && #[trigger] inet_offers(
                lines[k],
                other,
            ) implies !is_private(other) by {
            if k < last {
                assert(inet_offers(head[k], other));
            }
        }
        assert forall|k: int, other: Ipv4|
            !is_private(ip) && 0 <= k < lines.len() && #[trigger] inet_offers(
                lines[k],
                other,
            ) implies past <= k && !is_private(other) by {
            if k < last {
                assert(inet_offers(head[k], other));
            }
        }
        assert(best_offer(lines, ip, past));
    } else {
        assert forall|k: int, other: Ipv4| 0 <= k < lines.len() implies !#[trigger] inet_offers(
            lines[k],
            other,
        ) by {
            if k < last {
                assert(!inet_offers(head[k], other));
            }
        }
    }
    past
}

/// The address of the machine is the last one of a private network that its
/// interfaces offer, or else the first that they offer; and one is found if one is
/// offered.
pub proof fn private_addresses_are_preferred(output: &str, res: Option<Ipv4>) -> (n: int)
    requires
        call_ensures(find_physical_ip_unix, (output,), res),
    ensures
        res matches Some(ip) ==> best_offer(text::lines(output@), ip, n),
        res is None ==> forall|k: int, other: Ipv4|
            0 <= k < text::lines(output@).len() ==> !#[trigger] inet_offers(
                text::lines(output@)[k],
                other,
            ),
{
    lemma_best_offer(text::lines(output@))
}

/// The line of `ipconfig` tells the address `ip`.
pub open spec fn ipconfig_tells(line: Seq<char>, ip: Ipv4) -> bool {
    let parts = text::split(line, ':');
    &&& text::contains(line, "IPv4"@)
    &&& parts.len() >= 2
    &&& text::trimmed_end(text::trimmed(parts[1]), text::is_char('.')) == ipv4::dotted(ip)
}

proof fn lemma_ipconfig_tells(line: Seq<char>, ip: Ipv4)
    ensures
        ipconfig_address(line) == Some(ip) <==> ipconfig_tells(line, ip),
{
    let parts = text::split(line, ':');
    lemma_ip_of(text::trimmed_end(text::trimmed(parts[1]), text::is_char('.')), ip);
}

/// A line up to `k` names the virtual adapter.
pub open spec fn named_by(low: Seq<Seq<char>>, k: int) -> bool {
    exists|m: int|
        0 <= m <= k && (text::contains(#[trigger] low[m], "easytier"@) || text::contains(
            low[m],
            "tun"@,
        ))
}

proof fn lemma_virtual_address(lines: Seq<Seq<char>>, low: Seq<Seq<char>>, named: bool) -> (n: int)
    requires
        lines.len() == low.len(),
    ensures
        virtual_address(lines, low, named) matches Some(ip) ==> 0 <= n < lines.len()
            && ipconfig_tells(lines[n], ip) && (named || named_by(low, n)) && forall|
            k: int,
            other: Ipv4,
        |
            0 <= k < n && (named || named_by(low, k)) ==> !#[trigger] ipconfig_tells(
                lines[k],
                other,
            ),
        virtual_address(lines, low, named) is None ==> forall|k: int, other: Ipv4|
            0 <= k < lines.len() && (named || named_by(low, k)) ==> !#[trigger] ipconfig_tells(
                lines[k],
                other,
            ),
    decreases lines.len(),
{
    if lines.len() == 0 {
        return 0;
    }
    let now = named || names_virtual_adapter(low[0]);
    assert(named_by(low, 0) == names_virtual_adapter(low[0]));
    let rest = lines.drop_first();
    let rest_low = low.drop_first();
    assert forall|other: Ipv4| #[trigger] ipconfig_tells(lines[0], other) implies ipconfig_address(
        lines[0],
    ) == Some(other) by {
        lemma_ipconfig_tells(lines[0], other);
    }
    if now && ipconfig_address(lines[0]) is Some {
        lemma_ipconfig_tells(lines[0], ipconfig_address(lines[0])->Some_0);
        return 0;
    }
    let n = lemma_virtual_address(rest, rest_low, now);
    assert forall|k: int| 0 < k < lines.len() implies (named || #[trigger] named_by(low, k)) == (now
        || named_by(rest_low, k - 1)) by {
        if named_by(low, k) {
            let m = choose|m: int|
                0 <= m <= k && (text::contains(#[trigger] low[m], "easytier"@) || text::contains(
                    low[m],
                    "tun"@,
                ));
            if m > 0 {
                assert(rest_low[m - 1] == low[m]);
            }
        }
        if named_by(rest_low, k - 1) {
            let m = choose|m: int|
                0 <= m <= k - 1 && (text::contains(#[trigger] rest_low[m], "easytier"@)
                    || text::contains(rest_low[m], "tun"@));
            assert(low[m + 1] == rest_low[m]);
        }
        if names_virtual_adapter(low[0]) {
            assert(named_by(low, k));
        }
    }
    assert forall|k: int, other: Ipv4|
        0 <= k < lines.len() && (named || named_by(low, k)) && (k == 0 || !ipconfig_tells(
            rest[k - 1],
            other,
        )) implies !#[trigger] ipconfig_tells(lines[k], other) by {
        if k > 0 {
            assert(rest[k - 1] == lines[k]);
        }
    }
    if virtual_address(rest, rest_low, now) is Some {
        assert(rest[n] == lines[n + 1]);
        assert(named || named_by(low, n + 1));
    }
    n + 1
}

/// The virtual address is the first that is told on or after a line that names
/// the virtual adapter; and it is found if there is one.
pub proof fn the_virtual_adapter_tells_the_address(
    lines: &Vec<String>,
    low: &Vec<String>,
    res: Option<Ipv4>,
) -> (n: int)
    requires
        lines@.len() == low@.len(),
        call_ensures(virtual_address_of, (lines, low), res),
    ensures
        ({
            let l = text::texts(low@);
            &&& res matches Some(ip) ==> {
                &&& 0 <= n < lines@.len()
                &&& ipconfig_tells(lines@[n]@, ip)
                &&& named_by(l, n)
                &&& forall|k: int, other: Ipv4|
                    0 <= k < n && named_by(l, k) ==> !#[trigger] ipconfig_tells(
                        lines@[k]@,
                        other,
                    )
            }
            &&& res is None ==> forall|k: int, other: Ipv4|
                0 <= k < lines@.len() && named_by(l, k) ==> !#[trigger] ipconfig_tells(
                    lines@[k]@,
                    other,
                )
        }),
{
    let t = text::texts(lines@);
    let l = text::texts(low@);
    assert(t.len() == lines@.len() && l.len() == low@.len());
    let n = lemma_virtual_address(t, l, false);
    assert forall|k: int, other: Ipv4| 0 <= k < lines@.len() implies ipconfig_tells(t[k], other)
        == #[trigger] ipconfig_tells(lines@[k]@, other) by {
        assert(t[k] == lines@[k]@);
    }
    n
}

/// The line names an adapter that is not one of the machine.
pub open spec fn names_other_adapter(low: Seq<char>) -> bool {
    ||| text::contains(low, "easytier"@)
    ||| text::contains(low, "tun"@)
    ||| text::contains(low, "vpn"@)
}

/// A line up to `k` names an adapter of the machine, and none from there to `k`
/// names another.
pub open spec fn under_real_adapter(low: Seq<Seq<char>>, k: int) -> bool {
    exists|m: int|
        {
            &&& 0 <= m <= k
            &&& (text::contains(#[trigger] low[m], "ethernet"@) || text::contains(low[m], "wi-fi"@)
                || text::contains(low[m], "wireless"@) || text::contains(low[m], "以太网"@)
                || text::contains(low[m], "无线"@))
            &&& forall|i: int| m <= i <= k ==> !names_other_adapter(#[trigger] low[i])
        }
}

proof fn lemma_on_real(low: Seq<Seq<char>>)
    ensures
        on_real_adapter(low) == under_real_adapter(low, low.len() - 1),
    decreases low.len(),
{
    if low.len() > 0 {
        let head = low.drop_last();
        let k = low.len() - 1;
        lemma_on_real(head);
        if under_real_adapter(low, k) {
            let m = choose|m: int|
                {
                    &&& 0 <= m <= k
                    &&& names_real_adapter(#[trigger] low[m])
                    &&& forall|i: int| m <= i <= k ==> !names_other_adapter(#[trigger] low[i])
                };
            assert(!names_other_adapter(low[k]));
            if m < k {
                assert(head[m] == low[m]);
                assert forall|i: int| m <= i <= k - 1 implies !names_other_adapter(
                    #[trigger] head[i],
                ) by {
                    assert(head[i] == low[i]);
                }
                assert(under_real_adapter(head, k - 1));
            }
        }
        if on_real_adapter(low) {
            assert(!names_other_adapter(low[k]));
            if names_real_adapter(low[k]) {
                assert(under_real_adapter(low, k));
            } else {
                let m = choose|m: int|
                    {
                        &&& 0 <= m <= k - 1
                        &&& names_real_adapter(#[trigger] head[m])
                        &&& forall|i: int|
                            m <= i <= k - 1 ==> !names_other_adapter(#[trigger] head[i])
                    };
                assert(low[m] == head[m]);
                assert forall|i: int| m <= i <= k implies !names_other_adapter(#[trigger] low[i]) by {
                    if i < k {
                        assert(head[i] == low[i]);
                    }
                }
                assert(under_real_adapter(low, k));
            }
        }
    }
}

/// What stands under a line does not depend on the lines after it.
proof fn lemma_under_take(low: Seq<Seq<char>>, k: int)
    requires
        0 <= k < low.len() - 1,
    ensures
        under_real_adapter(low.drop_last(), k) == under_real_adapter(low, k),
{
    let head = low.drop_last();
    assert forall|i: int| 0 <= i <= k implies head[i] == low[i] by {}
    if under_real_adapter(low, k) {
        let m = choose|m: int|
            {
                &&& 0 <= m <= k
                &&& names_real_adapter(#[trigger] low[m])
                &&& forall|i: int| m <= i <= k ==> !names_other_adapter(#[trigger] low[i])
            };
        assert(names_real_adapter(head[m]));
        assert forall|i: int| m <= i <= k implies !names_other_adapter(#[trigger] head[i]) by {
            assert(head[i] == low[i]);
        }
    }
    if under_real_adapter(head, k) {
        let m = choose|m: int|
            {
                &&& 0 <= m <= k
                &&& names_real_adapter(#[trigger] head[m])
                &&& forall|i: int| m <= i <= k ==> !names_other_adapter(#[trigger] head[i])
            };
        assert(names_real_adapter(low[m]));
        assert forall|i: int| m <= i <= k implies !names_other_adapter(#[trigger] low[i]) by {
            assert(head[i] == low[i]);
        }
    }
}

/// The line, under an adapter of the machine, tells an address by which other
/// machines may reach this one.
pub open spec fn ipconfig_offers(
    lines: Seq<Seq<char>>,
    low: Seq<Seq<char>>,
    k: int,
    ip: Ipv4,
) -> bool {
    &&& under_real_adapter(low, k)
    &&& ipconfig_tells(lines[k], ip)
    &&& ip.a != 127
    &&& !(ip.a == 10 && ip.b == 144)
}

proof fn lemma_real_address(lines: Seq<Seq<char>>, low: Seq<Seq<char>>) -> (n: int)
    requires
        lines.len() == low.len(),
    ensures
        real_address(lines, low) matches Some(ip) ==> 0 <= n < lines.len() && ipconfig_offers(
            lines,
            low,
            n,
            ip,
        ) && forall|k: int, other: Ipv4|
            n < k < lines.len() ==> !#[trigger] ipconfig_offers(lines, low, k, other),
        real_address(lines, low) is None ==> forall|k: int, other: Ipv4|
            0 <= k < lines.len() ==> !#[trigger] ipconfig_offers(lines, low, k, other),
    decreases lines.len(),
{
    if lines.len() == 0 {
        return 0;
    }
    let head = lines.drop_last();
    let head_low = low.drop_last();
    let last = lines.len() - 1;
    let past = lemma_real_address(head, head_low);
    lemma_on_real(low);
    assert forall|k: int, other: Ipv4| 0 <= k < last implies ipconfig_offers(
        head,
        head_low,
        k,
        other,
    ) == #[trigger] ipconfig_offers(lines, low, k, other) by {
        lemma_under_take(low, k);
        assert(head[k] == lines[k]);
    }
    assert forall|other: Ipv4| #[trigger] ipconfig_offers(
        lines,
        low,
        last,
        other,
    ) implies on_real_adapter(low) && ipconfig_address(lines[last]) == Some(other) && usable(
        other,
    ) by {
        lemma_ipconfig_tells(lines[last], other);
    }
    if on_real_adapter(low) && ipconfig_address(lines[last]) is Some {
        let ip = ipconfig_address(lines[last])->Some_0;
        lemma_ipconfig_tells(lines[last], ip);
        if usable(ip) {
            assert(ipconfig_offers(lines, low, last, ip));
            return last;
        }
    }
    assert(real_address(lines, low) == real_address(head, head_low));
    if let Some(ip) = real_address(head, head_low) {
        assert(ipconfig_offers(lines, low, past, ip));
    }
    past
}

/// The address of the machine is the last that is offered under one of its
/// adapters; and one is found if one is offered.
pub proof fn the_last_real_address_is_found(
    lines: &Vec<String>,
    low: &Vec<String>,
    res: Option<Ipv4>,
) -> (n: int)
    requires
        lines@.len() == low@.len(),
        call_ensures(real_address_of, (lines, low), res),
    ensures
        ({
            let t = text::texts(lines@);
            let l = text::texts(low@);
            &&& res matches Some(ip) ==> 0 <= n < t.len() && ipconfig_offers(t, l, n, ip) && (
            forall|k: int, other: Ipv4|
                n < k < t.len() ==> !#[trigger] ipconfig_offers(t, l, k, other))
            &&& res is None ==> (forall|k: int, other: Ipv4|
                0 <= k < t.len() ==> !#[trigger] ipconfig_offers(t, l, k, other))
        }),
{
    lemma_real_address(text::texts(lines@), text::texts(low@))
}

/// What `ipconfig` prints is read line by line, the names of the adapters in
/// lower case.
pub proof fn adapters_are_named_in_any_case(
    output: &str,
    lines: Vec<String>,
    low: Vec<String>,
    a: Option<Ipv4>,
    b: Option<Ipv4>,
    x: Option<Ipv4>,
    y: Option<Ipv4>,
)
    requires
        call_ensures(lines_of, (output,), lines),
        low@.len() == lines@.len(),
        forall|k: int| 0 <= k < low@.len() ==> (#[trigger] low@[k])@ == text::lowercased(lines@[k]@),
        call_ensures(parse_easytier_ip_windows, (output,), a),
        call_ensures(virtual_address_of, (&lines, &low), b),
        call_ensures(find_physical_ip_windows, (output,), x),
        call_ensures(real_address_of, (&lines, &low), y),
    ensures
        a == b,
        x == y,
{
    assert(text::texts(low@) =~= lowercased_all(text::lines(output@))) by {
        assert(text::texts(lines@).len() == lines@.len());
        assert forall|k: int| 0 <= k < low@.len() implies text::texts(low@)[k] == lowercased_all(
            text::lines(output@),
        )[k] by {
            assert(text::texts(lines@)[k] == lines@[k]@);
            assert(low@[k]@ == text::lowercased(lines@[k]@));
        }
    }
}

} // verus!
