//! What the commands print.

use vstd::prelude::*;

use crate::config;
use crate::config::{CrossBagConfig, SyncDirection, SyncPair, DEFAULT_CONFIG_FILE};
use crate::identity;
use crate::numbers;
use crate::numbers::decimal_text;
use crate::protocol::PROTOCOL_VERSION;
use crate::sync::SyncResult;
use crate::text;
use crate::text::{pad_text, quoted};

verus! {

/// The version of the program.
pub const VERSION: &'static str = "0.1.0";

/// A row of the list of pairs.
pub open spec fn row_text(a: Seq<char>, b: Seq<char>, c: Seq<char>, d: Seq<char>) -> Seq<char> {
    text::padded(a, 20) + " "@ + text::padded(b, 40) + " "@ + text::padded(c, 20) + " "@
        + text::padded(d, 40)
}

/// The row of a pair.
pub open spec fn pair_row(p: SyncPair) -> Seq<char> {
    row_text(p.id@, p.local_path@, p.remote_node@, p.remote_path@)
}

/// The list of pairs: a heading, a line, and a row for each.
pub open spec fn list_text(pairs: Seq<SyncPair>) -> Seq<Seq<char>> {
    if pairs.len() == 0 {
        seq!["No sync pairs configured."@]
    } else {
        seq![
            row_text("ID"@, "Local Path"@, "Remote Node"@, "Remote Path"@),
            Seq::new(120, |i: int| '-'),
        ] + pairs.map_values(|p: SyncPair| pair_row(p))
    }
}

fn row(a: &str, b: &str, c: &str, d: &str) -> (res: String)
    ensures
        res@ == row_text(a@, b@, c@, d@),
{
    let mut res = pad_text(a, 20);
    res.append(" ");
    res.append(&pad_text(b, 40));
    res.append(" ");
    res.append(&pad_text(c, 20));
    res.append(" ");
    res.append(&pad_text(d, 40));
    res
}

fn dashes() -> (res: String)
    ensures
        res@ == Seq::new(120, |i: int| '-'),
{
    let mut res = String::new();
    let mut n: usize = 0;
    while n < 120
        invariant
            n <= 120,
            res@ == Seq::new(n as nat, |i: int| '-'),
        decreases 120 - n,
    {
        res.push('-');
        n += 1;
        assert(res@ =~= Seq::new(n as nat, |i: int| '-'));
    }
    res
}

/// The lines of the command that lists the pairs.
pub fn list_lines(c: &CrossBagConfig) -> (res: Vec<String>)
    ensures
        text::texts(res@) == list_text(c.sync_pairs@),
{
    let mut res: Vec<String> = Vec::new();
    if c.sync_pairs.len() == 0 {
        res.push("No sync pairs configured.".to_owned());
        assert(text::texts(res@) =~= list_text(c.sync_pairs@));
        return res;
    }
    res.push(row("ID", "Local Path", "Remote Node", "Remote Path"));
    res.push(dashes());
    let mut i: usize = 0;
    while i < c.sync_pairs.len()
        invariant
            i <= c.sync_pairs@.len(),
            res@.len() == i + 2,
            res@[0]@ == row_text("ID"@, "Local Path"@, "Remote Node"@, "Remote Path"@),
            res@[1]@ == Seq::new(120, |i: int| '-'),
            forall|k: int| 0 <= k < i ==> (#[trigger] res@[k + 2])@ == pair_row(c.sync_pairs@[k]),
        decreases c.sync_pairs@.len() - i,
    {
        let p = &c.sync_pairs[i];
        res.push(row(&p.id, &p.local_path, &p.remote_node, &p.remote_path));
        i += 1;
    }
    proof {
        let all = list_text(c.sync_pairs@);
        assert forall|k: int| 0 <= k < all.len() implies text::texts(res@)[k] == all[k] by {
            if k >= 2 {
                assert(res@[(k - 2) + 2]@ == pair_row(c.sync_pairs@[k - 2]));
            }
        }
        assert(text::texts(res@) =~= all);
    }
    res
}

/// The name of a direction.
pub open spec fn direction_name(d: SyncDirection) -> Seq<char> {
    match d {
        SyncDirection::Bidirectional => "Bidirectional"@,
        SyncDirection::PushOnly => "PushOnly"@,
        SyncDirection::PullOnly => "PullOnly"@,
    }
}

pub open spec fn yes_no(b: bool) -> Seq<char> {
    if b {
        "true"@
    } else {
        "false"@
    }
}

/// Some texts in quotes, in square brackets.
pub open spec fn quoted_list(v: Seq<Seq<char>>) -> Seq<char> {
    "["@ + text::joined(v.map_values(|s: Seq<char>| text::debug_text(s)), ", "@) + "]"@
}

/// What is shown of a pair in any case.
pub open spec fn pair_summary(p: SyncPair) -> Seq<Seq<char>> {
    seq![
        "  ["@ + (if p.enabled {
            "✓"@
        } else {
            "✗"@
        }) + "] "@ + p.id@,
        "    Local:  "@ + text::debug_text(p.local_path@),
        "    Remote: "@ + p.remote_node@ + " -> "@ + text::debug_text(p.remote_path@),
        "    Direction: "@ + direction_name(p.direction),
    ]
}

/// What is shown of a pair on demand.
pub open spec fn pair_details(p: SyncPair) -> Seq<Seq<char>> {
    let always = seq![
        "    Watch: "@ + yes_no(p.watch),
        "    Full Sync Interval: "@ + numbers::decimal(p.full_sync_interval as nat) + "s"@,
    ];
    if p.exclude_patterns@.len() > 0 {
        always.push("    Exclude: "@ + quoted_list(text::texts(p.exclude_patterns@)))
    } else {
        always
    }
}

/// What is shown of a pair.
pub open spec fn pair_text(p: SyncPair, verbose: bool) -> Seq<Seq<char>> {
    pair_summary(p) + (if verbose {
        pair_details(p)
    } else {
        Seq::empty()
    }) + seq![""@]
}

/// What is shown of the pairs at `places`.
pub open spec fn pairs_text(
    pairs: Seq<SyncPair>,
    places: Seq<usize>,
    verbose: bool,
) -> Seq<Seq<char>>
    decreases places.len(),
{
    if places.len() == 0 {
        Seq::empty()
    } else {
        pairs_text(pairs, places.drop_last(), verbose) + pair_text(
            pairs[places.last() as int],
            verbose,
        )
    }
}

/// What is shown of a peer.
pub open spec fn peer_text(id: Seq<char>, p: config::PeerConfig) -> Seq<char> {
    "  "@ + id + ": "@ + p.name@ + " ("@ + p.address@ + ")"@
}

/// What is shown of a node.
pub open spec fn status_head(c: CrossBagConfig) -> Seq<Seq<char>> {
    seq![
        "=== CrossBag Status ==="@,
        "Node ID:   "@ + identity::id_text(c.node.node_id@),
        "Node Name: "@ + c.node.name@,
        "Listen:    "@ + config::address_text(c.node.listen_addr@, c.node.port),
        ""@,
    ]
}

/// What is shown of the peers.
pub open spec fn peers_text(c: CrossBagConfig) -> Seq<Seq<char>> {
    seq![""@, "Peers: "@ + numbers::decimal(c.network.peers.keys().len())]
        + c.network.peers.keys().map_values(
        |id: Seq<char>| peer_text(id, c.network.peers@[id]),
    )
}

/// The whole status.
pub open spec fn status_text(
    c: CrossBagConfig,
    places: Seq<usize>,
    verbose: bool,
) -> Seq<Seq<char>> {
    status_head(c) + seq!["Sync Pairs: "@ + numbers::decimal(places.len())] + pairs_text(
        c.sync_pairs@,
        places,
        verbose,
    ) + peers_text(c)
}

/// Two texts, one after the other.
fn glue(a: &str, b: &str) -> (res: String)
    ensures
        res@ == a@ + b@,
{
    let mut res = a.to_owned();
    res.append(b);
    res
}

/// Some texts in quotes, in square brackets.
fn quote_list(v: &Vec<String>) -> (res: String)
    ensures
        res@ == quoted_list(text::texts(v@)),
{
    let ghost all = text::texts(v@).map_values(|s: Seq<char>| text::debug_text(s));
    let mut res = "[".to_owned();
    let mut i: usize = 0;
    assert(res@ =~= "["@ + text::joined(all.take(0), ", "@));
    while i < v.len()
        invariant
            i <= v@.len(),
            all == text::texts(v@).map_values(|s: Seq<char>| text::debug_text(s)),
            res@ == "["@ + text::joined(all.take(i as int), ", "@),
        decreases v@.len() - i,
    {
        if i > 0 {
            res.append(", ");
        }
        res.append(&quoted(&v[i]));
        proof {
            let now = all.take(i + 1);
            assert(now.drop_last() =~= all.take(i as int));
            assert(now.last() == text::debug_text(v@[i as int]@));
            if i == 0 {
                assert(all.take(0).len() == 0);
                assert(now[0] == now.last());
            }
            assert(res@ =~= "["@ + text::joined(now, ", "@));
        }
        i += 1;
    }
    assert(all.take(i as int) =~= all);
    res.append("]");
    res
}

/// The lines on a pair.
fn pair_lines(p: &SyncPair, verbose: bool) -> (res: Vec<String>)
    ensures
        text::texts(res@) == pair_text(*p, verbose),
{
    let mut res: Vec<String> = Vec::new();
    let mut first = if p.enabled {
        "  [✓] ".to_owned()
    } else {
        "  [✗] ".to_owned()
    };
    proof {
        reveal_strlit("  [✓] ");
        reveal_strlit("  [✗] ");
        reveal_strlit("  [");
        reveal_strlit("✓");
        reveal_strlit("✗");
        reveal_strlit("] ");
        assert("  [✓] "@ =~= "  ["@ + "✓"@ + "] "@);
        assert("  [✗] "@ =~= "  ["@ + "✗"@ + "] "@);
    }
    first.append(&p.id);
    res.push(first);
    res.push(glue("    Local:  ", &quoted(&p.local_path)));
    let mut remote = glue("    Remote: ", &p.remote_node);
    remote.append(" -> ");
    remote.append(&quoted(&p.remote_path));
    res.push(remote);
    res.push(
        glue(
            "    Direction: ",
            match p.direction {
                SyncDirection::Bidirectional => "Bidirectional",
                SyncDirection::PushOnly => "PushOnly",
                SyncDirection::PullOnly => "PullOnly",
            },
        ),
    );
    assert(text::texts(res@) =~= pair_summary(*p));
    if verbose {
        res.push(
            glue(
                "    Watch: ",
                if p.watch {
                    "true"
                } else {
                    "false"
                },
            ),
        );
        let mut interval = glue("    Full Sync Interval: ", &decimal_text(p.full_sync_interval));
        interval.append("s");
        res.push(interval);
        if p.exclude_patterns.len() > 0 {
            res.push(glue("    Exclude: ", &quote_list(&p.exclude_patterns)));
        }
        assert(text::texts(res@) =~= pair_summary(*p) + pair_details(*p));
    }
    res.push(String::new());
    proof {
        reveal_strlit("");
        assert(""@ =~= Seq::<char>::empty());
        assert(text::texts(res@) =~= pair_text(*p, verbose));
    }
    res
}

/// The lines of the command that shows the status, of one pair or of all.
pub fn status_lines(c: &CrossBagConfig, only: &Option<String>, verbose: bool) -> (res: Vec<String>)
    ensures
        text::texts(res@) == status_text(
            *c,
            config::places(c.sync_pairs@, config::asked_for(text::option_text(*only))),
            verbose,
        ),
{
    let ghost f = config::asked_for(text::option_text(*only));
    let places = c.select_pairs(only);
    let ghost all = config::places(c.sync_pairs@, f);
    proof {
        reveal_strlit("");
        assert(""@ =~= Seq::<char>::empty());
        assert(c.sync_pairs.len() <= usize::MAX);
        config::lemma_places(c.sync_pairs@, f);
    }
    let mut res: Vec<String> = Vec::new();
    res.push("=== CrossBag Status ===".to_owned());
    res.push(glue("Node ID:   ", &c.node.node_id.text()));
    res.push(glue("Node Name: ", &c.node.name));
    res.push(glue("Listen:    ", &c.listen_text()));
    res.push(String::new());
    assert(text::texts(res@) =~= status_head(*c));
    res.push(glue("Sync Pairs: ", &decimal_text(places.len() as u64)));
    let ghost head = status_head(*c) + seq!["Sync Pairs: "@ + numbers::decimal(all.len())];
    assert(text::texts(res@) =~= head);
    let mut i: usize = 0;
    assert(head + pairs_text(c.sync_pairs@, all.take(0), verbose) =~= head);
    while i < places.len()
        invariant
            i <= places@.len(),
            places@ == all,
            forall|k: int| 0 <= k < all.len() ==> (#[trigger] all[k]) < c.sync_pairs@.len(),
            text::texts(res@) == head + pairs_text(c.sync_pairs@, all.take(i as int), verbose),
        decreases places@.len() - i,
    {
        let ghost before = text::texts(res@);
        let place = places[i];
        assert(all[i as int] == place);
        let mut more = pair_lines(&c.sync_pairs[place], verbose);
        let ghost added = text::texts(more@);
        res.append(&mut more);
        proof {
            assert(text::texts(res@) =~= before + added);
            assert(all.take(i + 1).drop_last() =~= all.take(i as int));
            assert(text::texts(res@) =~= head + pairs_text(
                c.sync_pairs@,
                all.take(i + 1),
                verbose,
            ));
        }
        i += 1;
    }
    assert(all.take(i as int) =~= all);
    let ghost shown = text::texts(res@);
    res.push(String::new());
    let n = c.network.peers.len();
    res.push(glue("Peers: ", &decimal_text(n as u64)));
    let ghost keys = c.network.peers.keys();
    let ghost peers = keys.map_values(|id: Seq<char>| peer_text(id, c.network.peers@[id]));
    let ghost top = shown + seq![""@, "Peers: "@ + numbers::decimal(keys.len())];
    assert(text::texts(res@) =~= top + peers.take(0));
    let mut k: usize = 0;
    while k < n
        invariant
            k <= n,
            n == keys.len(),
            keys == c.network.peers.keys(),
            peers == keys.map_values(|id: Seq<char>| peer_text(id, c.network.peers@[id])),
            text::texts(res@) == top + peers.take(k as int),
        decreases n - k,
    {
        let ghost before = text::texts(res@);
        let id = c.network.peers.key_at(k);
        let peer = c.network.peers.value_at(k);
        let mut line = glue("  ", id);
        line.append(": ");
        line.append(&peer.name);
        line.append(" (");
        line.append(&peer.address);
        line.append(")");
        res.push(line);
        proof {
            assert(line@ == peers[k as int]);
            assert(text::texts(res@) =~= before.push(line@));
            assert(text::texts(res@) =~= top + peers.take(k + 1));
        }
        k += 1;
    }
    proof {
        assert(peers.take(k as int) =~= peers);
        assert(text::texts(res@) =~= status_text(*c, all, verbose));
    }
    res
}

/// What is printed after a pair was synchronised.
pub fn sync_line(r: &SyncResult) -> (res: String)
    ensures
        res@ == "Pair '"@ + r.pair_id@ + "': "@ + numbers::decimal(r.files_synced as nat)
            + " files synced, "@ + numbers::decimal(r.bytes_transferred as nat)
            + " bytes transferred"@,
{
    let mut res = glue("Pair '", &r.pair_id);
    res.append("': ");
    res.append(&decimal_text(r.files_synced as u64));
    res.append(" files synced, ");
    res.append(&decimal_text(r.bytes_transferred));
    res.append(" bytes transferred");
    res
}

/// The lines of the command that shows the version.
pub fn version_lines() -> (res: Vec<String>)
    ensures
        text::texts(res@) == seq![
            "CrossBag "@ + VERSION@,
            "Protocol version: "@ + numbers::decimal(PROTOCOL_VERSION as nat),
            "License: Apache-2.0"@,
            "Repository: https://github.com/bit-torch/CrossBag"@,
        ],
{
    let mut res: Vec<String> = Vec::new();
    res.push(glue("CrossBag ", VERSION));
    res.push(glue("Protocol version: ", &decimal_text(PROTOCOL_VERSION as u64)));
    res.push("License: Apache-2.0".to_owned());
    res.push("Repository: https://github.com/bit-torch/CrossBag".to_owned());
    assert(text::texts(res@) =~= seq![
        "CrossBag "@ + VERSION@,
        "Protocol version: "@ + numbers::decimal(PROTOCOL_VERSION as nat),
        "License: Apache-2.0"@,
        "Repository: https://github.com/bit-torch/CrossBag"@,
    ]);
    res
}

/// Where a new configuration is written: where it was asked for, or in the
/// current directory.
pub fn init_path(output: Option<String>) -> (res: String)
    ensures
        res@ == match output {
            Some(p) => p@,
            None => DEFAULT_CONFIG_FILE@,
        },
{
    match output {
        Some(p) => p,
        None => DEFAULT_CONFIG_FILE.to_owned(),
    }
}

/// Whether a new configuration may be written: not over one that is there,
/// unless that was asked for.
pub fn init_allowed(present: bool, force: bool) -> (res: bool)
    ensures
        res == (!present || force),
{
    !present || force
}

/// The texts stand in `s` one behind the other, with a gap between them.
pub open spec fn in_columns(
    s: Seq<char>,
    a: Seq<char>,
    b: Seq<char>,
    c: Seq<char>,
    d: Seq<char>,
) -> bool {
    exists|i: int, j: int, k: int|
        {
            &&& text::stands_at(s, a, 0)
            &&& #[trigger] text::stands_at(s, b, i) && a.len() < i && 20 < i
            &&& #[trigger] text::stands_at(s, c, j) && i + b.len() < j && i + 40 < j
            &&& #[trigger] text::stands_at(s, d, k) && j + c.len() < k && j + 20 < k
        }
}

proof fn lemma_in_columns(a: Seq<char>, b: Seq<char>, c: Seq<char>, d: Seq<char>)
    ensures
        in_columns(row_text(a, b, c, d), a, b, c, d),
{
    reveal_strlit(" ");
    let s = row_text(a, b, c, d);
    let p = text::padded(a, 20);
    let q = text::padded(b, 40);
    let r = text::padded(c, 20);
    let i = p.len() as int + 1;
    let j = i + q.len() + 1;
    let k = j + r.len() + 1;
    assert(s.subrange(0, a.len() as int) =~= a);
    assert(s.subrange(i, i + b.len()) =~= b);
    assert(s.subrange(j, j + c.len()) =~= c);
    assert(s.subrange(k, k + d.len()) =~= d);
    assert(text::stands_at(s, a, 0));
    assert(text::stands_at(s, b, i));
    assert(text::stands_at(s, c, j));
    assert(text::stands_at(s, d, k));
}

/// The list shows each pair in a row of its own, in the order of the
/// configuration, with its name, local path, remote node and remote path.
pub proof fn every_pair_is_listed(c: &CrossBagConfig, res: Vec<String>, i: int)
    requires
        call_ensures(list_lines, (c,), res),
        0 <= i < c.sync_pairs@.len(),
    ensures
        res@.len() == c.sync_pairs@.len() + 2,
        ({
            let p = c.sync_pairs@[i];
            in_columns(res@[i + 2]@, p.id@, p.local_path@, p.remote_node@, p.remote_path@)
        }),
{
    let t = text::texts(res@);
    let p = c.sync_pairs@[i];
    assert(t.len() == res@.len());
    assert(t[i + 2] == res@[i + 2]@);
    assert(t[i + 2] == pair_row(p));
    lemma_in_columns(p.id@, p.local_path@, p.remote_node@, p.remote_path@);
}

/// The lines on a pair stand at `k`: whether it is enabled and its name, then
/// where its directories are, then which way files go.
pub open spec fn shows_pair(lines: Seq<String>, k: int, p: SyncPair) -> bool {
    &&& 0 <= k && k + 3 < lines.len()
    &&& lines[k]@ == "  ["@ + (if p.enabled {
        "✓"@
    } else {
        "✗"@
    }) + "] "@ + p.id@
    &&& lines[k + 1]@ == "    Local:  "@ + text::debug_text(p.local_path@)
    &&& lines[k + 2]@ == "    Remote: "@ + p.remote_node@ + " -> "@ + text::debug_text(
        p.remote_path@,
    )
    &&& lines[k + 3]@ == "    Direction: "@ + match p.direction {
        SyncDirection::Bidirectional => "Bidirectional"@,
        SyncDirection::PushOnly => "PushOnly"@,
        SyncDirection::PullOnly => "PullOnly"@,
    }
}

proof fn lemma_pairs_text(
    pairs: Seq<SyncPair>,
    places: Seq<usize>,
    verbose: bool,
    n: int,
) -> (k: int)
    requires
        0 <= n < places.len(),
    ensures
        0 <= k,
        k + 3 < pairs_text(pairs, places, verbose).len(),
        pairs_text(pairs, places, verbose).subrange(k, k + 4) == pair_summary(
            pairs[places[n] as int],
        ),
    decreases places.len(),
{
    let all = pairs_text(pairs, places, verbose);
    let head = pairs_text(pairs, places.drop_last(), verbose);
    let own = pair_text(pairs[places.last() as int], verbose);
    assert(all == head + own);
    if n == places.len() - 1 {
        let k = head.len() as int;
        assert(all.subrange(k, k + 4) =~= pair_summary(pairs[places[n] as int]));
        k
    } else {
        let k = lemma_pairs_text(pairs, places.drop_last(), verbose, n);
        assert(all.subrange(k, k + 4) =~= head.subrange(k, k + 4));
        k
    }
}

proof fn lemma_in_the_middle(
    lines: Seq<String>,
    head: Seq<Seq<char>>,
    shown: Seq<Seq<char>>,
    tail: Seq<Seq<char>>,
    p: Seq<Seq<char>>,
    at: int,
)
    requires
        text::texts(lines) == head + shown + tail,
        p.len() == 4,
        0 <= at,
        at + 3 < shown.len(),
        shown.subrange(at, at + 4) == p,
    ensures
        head.len() + at + 3 < lines.len(),
        lines[head.len() + at]@ == p[0],
        lines[head.len() + at + 1]@ == p[1],
        lines[head.len() + at + 2]@ == p[2],
        lines[head.len() + at + 3]@ == p[3],
{
    let t = text::texts(lines);
    let k = head.len() + at;
    assert(t.len() == lines.len());
    assert forall|d: int| 0 <= d < 4 implies lines[k + d]@ == #[trigger] p[d] by {
        assert(t[k + d] == lines[k + d]@);
        assert(shown.subrange(at, at + 4)[d] == shown[at + d]);
    }
    assert(lines[k + 0]@ == p[0] && lines[k + 1]@ == p[1] && lines[k + 2]@ == p[2] && lines[k
        + 3]@ == p[3]);
}

/// The place of a pair among those that were asked for.
proof fn lemma_asked(c: &CrossBagConfig, only: &Option<String>, i: int) -> (n: int)
    requires
        0 <= i < c.sync_pairs@.len(),
        *only matches Some(id) ==> c.sync_pairs@[i].id@ == id@,
    ensures
        ({
            let places = config::places(
                c.sync_pairs@,
                config::asked_for(text::option_text(*only)),
            );
            0 <= n < places.len() && places[n] == i
        }),
{
    let f = config::asked_for(text::option_text(*only));
    let pairs = c.sync_pairs@;
    let places = config::places(pairs, f);
    assert(c.sync_pairs.len() <= usize::MAX);
    config::lemma_picked(pairs, f);
    assert(f(pairs[i]));
    assert(pairs[(i as usize) as int] == pairs[i]);
    assert(places.contains(i as usize));
    choose|n: int| 0 <= n < places.len() && places[n] == i as usize
}

/// The status shows each pair that was asked for.
pub proof fn every_asked_pair_is_shown(
    c: &CrossBagConfig,
    only: &Option<String>,
    verbose: bool,
    res: Vec<String>,
    i: int,
) -> (k: int)
    requires
        call_ensures(status_lines, (c, only, verbose), res),
        0 <= i < c.sync_pairs@.len(),
        *only matches Some(id) ==> c.sync_pairs@[i].id@ == id@,
    ensures
        shows_pair(res@, k, c.sync_pairs@[i]),
{
    let pairs = c.sync_pairs@;
    let places = config::places(pairs, config::asked_for(text::option_text(*only)));
    let n = lemma_asked(c, only, i);
    let at = lemma_pairs_text(pairs, places, verbose, n);
    let head = status_head(*c) + seq!["Sync Pairs: "@ + numbers::decimal(places.len())];
    let p = pair_summary(pairs[i]);
    lemma_in_the_middle(
        res@,
        head,
        pairs_text(pairs, places, verbose),
        peers_text(*c),
        p,
        at,
    );
    head.len() + at
}

/// The status shows who the node is and where it listens, and each of its peers
/// with name and address.
pub proof fn every_peer_is_shown(
    c: &CrossBagConfig,
    only: &Option<String>,
    verbose: bool,
    res: Vec<String>,
    id: String,
    listens: String,
    n: usize,
    peer: Seq<char>,
) -> (k: int)
    requires
        call_ensures(status_lines, (c, only, verbose), res),
        call_ensures(identity::NodeId::text, (&c.node.node_id,), id),
        call_ensures(CrossBagConfig::listen_text, (c,), listens),
        call_ensures(crate::table::Table::<config::PeerConfig>::len, (&c.network.peers,), n),
        c.network.peers@.contains_key(peer),
    ensures
        res@.len() > 3,
        res@[1]@ == "Node ID:   "@ + id@,
        res@[2]@ == "Node Name: "@ + c.node.name@,
        res@[3]@ == "Listen:    "@ + listens@,
        0 <= k < res@.len(),
        res@[k]@ == "  "@ + peer + ": "@ + c.network.peers@[peer].name@ + " ("@
            + c.network.peers@[peer].address@ + ")"@,
{
    let keys = c.network.peers.keys();
    let t = text::texts(res@);
    assert(t.len() == res@.len());
    assert(keys.contains(peer));
    let j = choose|j: int| 0 <= j < keys.len() && keys[j] == peer;
    let k = t.len() - keys.len() + j;
    assert(t[k] == peer_text(peer, c.network.peers@[peer]));
    assert(t[k] == res@[k]@);
    assert(t[1] == res@[1]@ && t[2] == res@[2]@ && t[3] == res@[3]@);
    k
}

/// What is printed of a synchronisation tells the pair and the numbers of files
/// and bytes, in decimal notation.
pub proof fn results_are_told(r: &SyncResult, res: String, files: String, bytes: String)
    requires
        call_ensures(sync_line, (r,), res),
        call_ensures(decimal_text, (r.files_synced as u64,), files),
        call_ensures(decimal_text, (r.bytes_transferred,), bytes),
    ensures
        res@ == "Pair '"@ + r.pair_id@ + "': "@ + files@ + " files synced, "@ + bytes@
            + " bytes transferred"@,
{
}

/// A new configuration is written where it was asked for, and over one that is
/// there only on demand.
pub proof fn configurations_are_not_overwritten(
    output: Option<String>,
    path: String,
    present: bool,
    force: bool,
    allowed: bool,
)
    requires
        call_ensures(init_path, (output,), path),
        call_ensures(init_allowed, (present, force), allowed),
    ensures
        output matches Some(p) ==> path@ == p@,
        output is None ==> path@ == "crossbag.toml"@,
        present && !force ==> !allowed,
        !present || force ==> allowed,
{
}

} // verus!
