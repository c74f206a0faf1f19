//! Gossip dissemination: the send-buffer and keep-buffer, the per-message
//! round budget, de-duplication of already-seen payloads, and the
//! per-round dissemination decision.  The sockets that carry the chosen
//! sends live outside the crate.

use vstd::prelude::*;

use crate::common::BroadcastMessage;
use crate::common::NodeMeta;
use crate::config::BroadcastConfig;
use crate::random::gen_msg_id;
use crate::random::rand_below;

verus! {

/// The ceiling of e raised to `j/2`, for `0 <= j <= 98`; above 98 the
/// value for 98 is returned.  An integer `m >= 1` satisfies
/// `spec_rounds_threshold(j) <= m` exactly when `j <= 2 * ln(m)`, which
/// lets the round budget below take an exact logarithm without floating
/// point: the chain was computed from a rational enclosure of e with the
/// bounds agreeing on every floor.
pub open spec fn spec_rounds_threshold(j: int) -> u128 {
    if j <= 0 {
        1
    } else if j == 1 {
        2
    } else if j == 2 {
        3
    } else if j == 3 {
        5
    } else if j == 4 {
        8
    } else if j == 5 {
        13
    } else if j == 6 {
        21
    } else if j == 7 {
        34
    } else if j == 8 {
        55
    } else if j == 9 {
        91
    } else if j == 10 {
        149
    } else if j == 11 {
        245
    } else if j == 12 {
        404
    } else if j == 13 {
        666
    } else if j == 14 {
        1097
    } else if j == 15 {
        1809
    } else if j == 16 {
        2981
    } else if j == 17 {
        4915
    } else if j == 18 {
        8104
    } else if j == 19 {
        13360
    } else if j == 20 {
        22027
    } else if j == 21 {
        36316
    } else if j == 22 {
        59875
    } else if j == 23 {
        98716
    } else if j == 24 {
        162755
    } else if j == 25 {
        268338
    } else if j == 26 {
        442414
    } else if j == 27 {
        729417
    } else if j == 28 {
        1202605
    } else if j == 29 {
        1982760
    } else if j == 30 {
        3269018
    } else if j == 31 {
        5389699
    } else if j == 32 {
        8886111
    } else if j == 33 {
        14650720
    } else if j == 34 {
        24154953
    } else if j == 35 {
        39824785
    } else if j == 36 {
        65659970
    } else if j == 37 {
        108254988
    } else if j == 38 {
        178482301
    } else if j == 39 {
        294267567
    } else if j == 40 {
        485165196
    } else if j == 41 {
        799902178
    } else if j == 42 {
        1318815735
    } else if j == 43 {
        2174359554
    } else if j == 44 {
        3584912847
    } else if j == 45 {
        5910522064
    } else if j == 46 {
        9744803447
    } else if j == 47 {
        16066464721
    } else if j == 48 {
        26489122130
    } else if j == 49 {
        43673179098
    } else if j == 50 {
        72004899338
    } else if j == 51 {
        118716009133
    } else if j == 52 {
        195729609429
    } else if j == 53 {
        322703570372
    } else if j == 54 {
        532048240602
    } else if j == 55 {
        877199251319
    } else if j == 56 {
        1446257064292
    } else if j == 57 {
        2384474784798
    } else if j == 58 {
        3931334297145
    } else if j == 59 {
        6481674477935
    } else if j == 60 {
        10686474581525
    } else if j == 61 {
        17619017951356
    } else if j == 62 {
        29048849665248
    } else if j == 63 {
        47893456332464
    } else if j == 64 {
        78962960182681
    } else if j == 65 {
        130187912050633
    } else if j == 66 {
        214643579785917
    } else if j == 67 {
        353887435612260
    } else if j == 68 {
        583461742527455
    } else if j == 69 {
        961965785544777
    } else if j == 70 {
        1586013452313431
    } else if j == 71 {
        2614894114445697
    } else if j == 72 {
        4311231547115196
    } else if j == 73 {
        7108019154642245
    } else if j == 74 {
        11719142372802612
    } else if j == 75 {
        19321599304402837
    } else if j == 76 {
        31855931757113757
    } else if j == 77 {
        52521552285925159
    } else if j == 78 {
        86593400423993747
    } else if j == 79 {
        142768381181291986
    } else if j == 80 {
        235385266837019986
    } else if j == 81 {
        388084696243620325
    } else if j == 82 {
        639843493530054950
    } else if j == 83 {
        1054923577702081419
    } else if j == 84 {
        1739274941520501048
    } else if j == 85 {
        2867579591680571560
    } else if j == 86 {
        4727839468229346562
    } else if j == 87 {
        7794889495725306400
    } else if j == 88 {
        12851600114359308276
    } else if j == 89 {
        21188706471076390949
    } else if j == 90 {
        34934271057485095349
    } else if j == 91 {
        57596875768879535866
    } else if j == 92 {
        94961194206024488746
    } else if j == 93 {
        156564540778558341657
    } else if j == 94 {
        258131288619006739624
    } else if j == 95 {
        425586546179390318635
    } else if j == 96 {
        701673591209763173866
    } else if j == 97 {
        1156864174916083007522
    } else if j == 98 {
        1907346572495099690526
    } else {
        1907346572495099690526
    }
}

/// The executable threshold chain; it mirrors `spec_rounds_threshold`.
fn rounds_threshold(j: u32) -> (r: u128)
    ensures
        r == spec_rounds_threshold(j as int),
{
    if j == 0 {
        1
    } else if j == 1 {
        2
    } else if j == 2 {
        3
    } else if j == 3 {
        5
    } else if j == 4 {
        8
    } else if j == 5 {
        13
    } else if j == 6 {
        21
    } else if j == 7 {
        34
    } else if j == 8 {
        55
    } else if j == 9 {
        91
    } else if j == 10 {
        149
    } else if j == 11 {
        245
    } else if j == 12 {
        404
    } else if j == 13 {
        666
    } else if j == 14 {
        1097
    } else if j == 15 {
        1809
    } else if j == 16 {
        2981
    } else if j == 17 {
        4915
    } else if j == 18 {
        8104
    } else if j == 19 {
        13360
    } else if j == 20 {
        22027
    } else if j == 21 {
        36316
    } else if j == 22 {
        59875
    } else if j == 23 {
        98716
    } else if j == 24 {
        162755
    } else if j == 25 {
        268338
    } else if j == 26 {
        442414
    } else if j == 27 {
        729417
    } else if j == 28 {
        1202605
    } else if j == 29 {
        1982760
    } else if j == 30 {
        3269018
    } else if j == 31 {
        5389699
    } else if j == 32 {
        8886111
    } else if j == 33 {
        14650720
    } else if j == 34 {
        24154953
    } else if j == 35 {
        39824785
    } else if j == 36 {
        65659970
    } else if j == 37 {
        108254988
    } else if j == 38 {
        178482301
    } else if j == 39 {
        294267567
    } else if j == 40 {
        485165196
    } else if j == 41 {
        799902178
    } else if j == 42 {
        1318815735
    } else if j == 43 {
        2174359554
    } else if j == 44 {
        3584912847
    } else if j == 45 {
        5910522064
    } else if j == 46 {
        9744803447
    } else if j == 47 {
        16066464721
    } else if j == 48 {
        26489122130
    } else if j == 49 {
        43673179098
    } else if j == 50 {
        72004899338
    } else if j == 51 {
        118716009133
    } else if j == 52 {
        195729609429
    } else if j == 53 {
        322703570372
    } else if j == 54 {
        532048240602
    } else if j == 55 {
        877199251319
    } else if j == 56 {
        1446257064292
    } else if j == 57 {
        2384474784798
    } else if j == 58 {
        3931334297145
    } else if j == 59 {
        6481674477935
    } else if j == 60 {
        10686474581525
    } else if j == 61 {
        17619017951356
    } else if j == 62 {
        29048849665248
    } else if j == 63 {
        47893456332464
    } else if j == 64 {
        78962960182681
    } else if j == 65 {
        130187912050633
    } else if j == 66 {
        214643579785917
    } else if j == 67 {
        353887435612260
    } else if j == 68 {
        583461742527455
    } else if j == 69 {
        961965785544777
    } else if j == 70 {
        1586013452313431
    } else if j == 71 {
        2614894114445697
    } else if j == 72 {
        4311231547115196
    } else if j == 73 {
        7108019154642245
    } else if j == 74 {
        11719142372802612
    } else if j == 75 {
        19321599304402837
    } else if j == 76 {
        31855931757113757
    } else if j == 77 {
        52521552285925159
    } else if j == 78 {
        86593400423993747
    } else if j == 79 {
        142768381181291986
    } else if j == 80 {
        235385266837019986
    } else if j == 81 {
        388084696243620325
    } else if j == 82 {
        639843493530054950
    } else if j == 83 {
        1054923577702081419
    } else if j == 84 {
        1739274941520501048
    } else if j == 85 {
        2867579591680571560
    } else if j == 86 {
        4727839468229346562
    } else if j == 87 {
        7794889495725306400
    } else if j == 88 {
        12851600114359308276
    } else if j == 89 {
        21188706471076390949
    } else if j == 90 {
        34934271057485095349
    } else if j == 91 {
        57596875768879535866
    } else if j == 92 {
        94961194206024488746
    } else if j == 93 {
        156564540778558341657
    } else if j == 94 {
        258131288619006739624
    } else if j == 95 {
        425586546179390318635
    } else if j == 96 {
        701673591209763173866
    } else if j == 97 {
        1156864174916083007522
    } else if j == 98 {
        1907346572495099690526
    } else {
        1907346572495099690526
    }
}

/// The largest `k <= j` with `spec_rounds_threshold(k) <= m`, or zero.
/// For `1 <= m` and `j` large enough this is the floor of `2 * ln(m)`.
pub open spec fn spec_two_ln_floor(m: int, j: int) -> int
    decreases j,
{
    if j <= 0 {
        0
    } else if spec_rounds_threshold(j) <= m {
        j
    } else {
        spec_two_ln_floor(m, j - 1)
    }
}

/// The retransmission budget of a fresh broadcast among `n` peers:
/// `floor(2 * ln(n * p / (1 - p)) / fanout)` with delivery probability
/// `p = 0.99`, so the argument of the logarithm is `99 * n`; one round
/// when `n <= 1`.  The floor of the quotient equals the integer quotient
/// of `floor(2 * ln(99 * n))` by `fanout`, and `2 * ln(99 * n)` never
/// reaches 98 for any peer count a machine can hold.
pub open spec fn spec_rounds_count(n: int, fanout: int) -> int
    recommends
        fanout >= 1,
{
    if n <= 1 {
        1
    } else {
        spec_two_ln_floor(99 * n, 97) / fanout
    }
}

/// Computes the retransmission budget of a fresh broadcast.
pub fn get_rounds_count(nodes: usize, fanout: u32) -> (r: i32)
    requires
        fanout >= 1,
    ensures
        r == spec_rounds_count(nodes as int, fanout as int),
        nodes <= 1 ==> r == 1,
        0 <= r <= 97,
{
    if nodes <= 1 {
        return 1;
    }
    let m: u128 = 99u128 * (nodes as u128);
    let mut j: u32 = 97;
    loop
        invariant_except_break
            j <= 97,
            spec_two_ln_floor(m as int, 97) == spec_two_ln_floor(m as int, j as int),
        ensures
            j <= 97,
            j as int == spec_two_ln_floor(m as int, 97),
        decreases j,
    {
        if j == 0 {
            break;
        }
        let limit = rounds_threshold(j);
        if limit <= m {
            break;
        }
        j = j - 1;
    }
    let r: u32 = j / fanout;
    r as i32
}

} // verus!

verus! {

/// Per-gossip bookkeeping: the envelope, its remaining round budget, and
/// whether it is still in the send phase.
#[derive(Clone, Debug)]
pub struct BufferedBroadcast {
    pub msg: BroadcastMessage,
    pub rounds: i32,
    pub send: bool,
}

/// True when some entry of `s` buffers the broadcast identifier `id`.
pub open spec fn spec_buf_contains_id(s: Seq<BufferedBroadcast>, id: u128) -> bool {
    exists|i: int| 0 <= i < s.len() && s[i].msg.id == id
}

/// True when no broadcast identifier appears at two positions of `s`.
pub open spec fn spec_buf_distinct_ids(s: Seq<BufferedBroadcast>) -> bool {
    forall|i: int, j: int|
        0 <= i < s.len() && 0 <= j < s.len() && i != j ==> s[i].msg.id != s[j].msg.id
}

/// True when no broadcast identifier appears in both `a` and `b`.
pub open spec fn spec_buf_disjoint(a: Seq<BufferedBroadcast>, b: Seq<BufferedBroadcast>) -> bool {
    forall|i: int, j: int|
        0 <= i < a.len() && 0 <= j < b.len() ==> a[i].msg.id != b[j].msg.id
}

/// The entries of `s` whose round budget is not yet spent.
pub open spec fn spec_still_sending(s: Seq<BufferedBroadcast>) -> Seq<BufferedBroadcast>
    decreases s.len(),
{
    if s.len() == 0 {
        s
    } else if s.first().rounds >= 0 {
        seq![s.first()] + spec_still_sending(s.drop_first())
    } else {
        spec_still_sending(s.drop_first())
    }
}

/// The entries of `s` whose round budget is spent, with the send flag
/// cleared: what one round hands from the send-buffer to the keep-buffer.
pub open spec fn spec_move_ready(s: Seq<BufferedBroadcast>) -> Seq<BufferedBroadcast>
    decreases s.len(),
{
    if s.len() == 0 {
        s
    } else if s.first().rounds < 0 {
        seq![
            (BufferedBroadcast { msg: s.first().msg, rounds: s.first().rounds, send: false }),
        ] + spec_move_ready(s.drop_first())
    } else {
        spec_move_ready(s.drop_first())
    }
}

/// The keep-buffer after one round of aging: every budget drops by one
/// and entries fallen below `-limit` are evicted.
pub open spec fn spec_age_keep(s: Seq<BufferedBroadcast>, limit: int) -> Seq<BufferedBroadcast>
    decreases s.len(),
{
    if s.len() == 0 {
        s
    } else if s.first().rounds - 1 >= -limit {
        seq![
            (BufferedBroadcast {
                msg: s.first().msg,
                rounds: (s.first().rounds - 1) as i32,
                send: s.first().send,
            }),
        ] + spec_age_keep(s.drop_first(), limit)
    } else {
        spec_age_keep(s.drop_first(), limit)
    }
}

/// `s` with the round budget of the entry at `i` decremented.
pub open spec fn spec_dec_at(s: Seq<BufferedBroadcast>, i: int) -> Seq<BufferedBroadcast>
    recommends
        0 <= i < s.len(),
{
    s.update(
        i,
        BufferedBroadcast { msg: s[i].msg, rounds: (s[i].rounds - 1) as i32, send: s[i].send },
    )
}

/// What the send-phase split keeps: entries of the original with a
/// non-negative budget, exactly the identifiers of such entries, and
/// distinctness.
proof fn lemma_still_sending_spec(s: Seq<BufferedBroadcast>)
    ensures
        forall|x: u128|
            #[trigger] spec_buf_contains_id(spec_still_sending(s), x) <==> exists|i: int|
                0 <= i < s.len() && s[i].msg.id == x && #[trigger] s[i].rounds >= 0,
        forall|k: int|
            0 <= k < spec_still_sending(s).len() ==> exists|w: int|
                0 <= w < s.len() && #[trigger] spec_still_sending(s)[k] == s[w] && s[w].rounds
                    >= 0,
        spec_buf_distinct_ids(s) ==> spec_buf_distinct_ids(spec_still_sending(s)),
    decreases s.len(),
{
    let r = spec_still_sending(s);
    if s.len() == 0 {
        assert forall|x: u128| #[trigger] spec_buf_contains_id(r, x) implies false by {}
    } else {
        let d = s.drop_first();
        let rd = spec_still_sending(d);
        lemma_still_sending_spec(d);
        assert(forall|i: int| 0 <= i < d.len() ==> #[trigger] d[i] == s[i + 1]);
        if s.first().rounds >= 0 {
            assert(r == seq![s.first()] + rd);
            assert(r[0] == s[0]);
            assert(forall|k: int| 0 <= k < rd.len() ==> #[trigger] r[k + 1] == rd[k]);
            assert forall|k: int| 0 <= k < r.len() implies exists|w: int|
                0 <= w < s.len() && #[trigger] r[k] == s[w] && s[w].rounds >= 0 by {
                if k == 0 {
                    assert(r[0] == s[0] && s[0].rounds >= 0);
                } else {
                    let w = choose|w: int| 0 <= w < d.len() && rd[k - 1] == d[w] && d[w].rounds >= 0;
                    assert(r[k] == s[w + 1] && s[w + 1].rounds >= 0);
                }
            }
            assert forall|x: u128| #[trigger] spec_buf_contains_id(r, x) implies exists|i: int|
                0 <= i < s.len() && s[i].msg.id == x && #[trigger] s[i].rounds >= 0 by {
                let k = choose|k: int| 0 <= k < r.len() && r[k].msg.id == x;
                let w = choose|w: int| 0 <= w < s.len() && r[k] == s[w] && s[w].rounds >= 0;
                assert(s[w].msg.id == x && s[w].rounds >= 0);
            }
            assert forall|x: u128|
                (exists|i: int| 0 <= i < s.len() && s[i].msg.id == x && #[trigger] s[i].rounds >= 0)
                implies #[trigger] spec_buf_contains_id(r, x) by {
                let i = choose|i: int| 0 <= i < s.len() && s[i].msg.id == x && s[i].rounds >= 0;
                if i == 0 {
                    assert(r[0].msg.id == x);
                } else {
                    assert(d[i - 1].msg.id == x && d[i - 1].rounds >= 0);
                    assert(spec_buf_contains_id(rd, x));
                    let k = choose|k: int| 0 <= k < rd.len() && rd[k].msg.id == x;
                    assert(r[k + 1].msg.id == x);
                }
            }
            if spec_buf_distinct_ids(s) {
                assert(spec_buf_distinct_ids(d));
                assert forall|i: int, j: int|
                    0 <= i < r.len() && 0 <= j < r.len() && i != j implies r[i].msg.id
                    != r[j].msg.id by {
                    if i == 0 || j == 0 {
                        let k = if i == 0 { j } else { i };
                        let w = choose|w: int|
                            0 <= w < d.len() && rd[k - 1] == d[w] && d[w].rounds >= 0;
                        assert(r[k] == s[w + 1]);
                        assert(s[0].msg.id != s[w + 1].msg.id);
                    } else {
                        assert(rd[i - 1].msg.id != rd[j - 1].msg.id);
                    }
                }
            }
        } else {
            assert(r == rd);
            assert forall|k: int| 0 <= k < r.len() implies exists|w: int|
                0 <= w < s.len() && #[trigger] r[k] == s[w] && s[w].rounds >= 0 by {
                let w = choose|w: int| 0 <= w < d.len() && rd[k] == d[w] && d[w].rounds >= 0;
                assert(r[k] == s[w + 1] && s[w + 1].rounds >= 0);
            }
            assert forall|x: u128| #[trigger] spec_buf_contains_id(r, x) implies exists|i: int|
                0 <= i < s.len() && s[i].msg.id == x && #[trigger] s[i].rounds >= 0 by {
                let k = choose|k: int| 0 <= k < r.len() && r[k].msg.id == x;
                let w = choose|w: int| 0 <= w < d.len() && rd[k] == d[w] && d[w].rounds >= 0;
                assert(s[w + 1].msg.id == x && s[w + 1].rounds >= 0);
            }
            assert forall|x: u128|
                (exists|i: int| 0 <= i < s.len() && s[i].msg.id == x && #[trigger] s[i].rounds >= 0)
                implies #[trigger] spec_buf_contains_id(r, x) by {
                let i = choose|i: int| 0 <= i < s.len() && s[i].msg.id == x && s[i].rounds >= 0;
                assert(i != 0);
                assert(d[i - 1].msg.id == x && d[i - 1].rounds >= 0);
                assert(spec_buf_contains_id(rd, x));
            }
        }
    }
}

} // verus!

verus! {

/// What the send-phase split hands over: the original entries with a
/// negative budget, send flag cleared, exactly those identifiers, and
/// distinctness.
proof fn lemma_move_ready_spec(s: Seq<BufferedBroadcast>)
    ensures
        forall|x: u128|
            #[trigger] spec_buf_contains_id(spec_move_ready(s), x) <==> exists|i: int|
                0 <= i < s.len() && s[i].msg.id == x && #[trigger] s[i].rounds < 0,
        forall|k: int|
            0 <= k < spec_move_ready(s).len() ==> exists|w: int|
                0 <= w < s.len() && #[trigger] spec_move_ready(s)[k].msg == s[w].msg
                    && spec_move_ready(s)[k].rounds == s[w].rounds && s[w].rounds < 0
                    && spec_move_ready(s)[k].send == false,
        spec_buf_distinct_ids(s) ==> spec_buf_distinct_ids(spec_move_ready(s)),
    decreases s.len(),
{
    let r = spec_move_ready(s);
    if s.len() == 0 {
        assert forall|x: u128| #[trigger] spec_buf_contains_id(r, x) implies false by {}
    } else {
        let d = s.drop_first();
        let rd = spec_move_ready(d);
        lemma_move_ready_spec(d);
        assert(forall|i: int| 0 <= i < d.len() ==> #[trigger] d[i] == s[i + 1]);
        if s.first().rounds < 0 {
            let head = BufferedBroadcast { msg: s.first().msg, rounds: s.first().rounds, send: false };
            assert(r == seq![head] + rd);
            assert(r[0] == head);
            assert(forall|k: int| 0 <= k < rd.len() ==> #[trigger] r[k + 1] == rd[k]);
            assert forall|k: int| 0 <= k < r.len() implies exists|w: int|
                0 <= w < s.len() && #[trigger] r[k].msg == s[w].msg && r[k].rounds == s[w].rounds
                    && s[w].rounds < 0 && r[k].send == false by {
                if k == 0 {
                    assert(r[0].msg == s[0].msg && r[0].rounds == s[0].rounds && s[0].rounds < 0
                        && r[0].send == false);
                } else {
                    let w = choose|w: int|
                        0 <= w < d.len() && rd[k - 1].msg == d[w].msg && rd[k - 1].rounds
                            == d[w].rounds && d[w].rounds < 0 && rd[k - 1].send == false;
                    assert(r[k].msg == s[w + 1].msg && r[k].rounds == s[w + 1].rounds && s[w
                        + 1].rounds < 0 && r[k].send == false);
                }
            }
            assert forall|x: u128| #[trigger] spec_buf_contains_id(r, x) implies exists|i: int|
                0 <= i < s.len() && s[i].msg.id == x && #[trigger] s[i].rounds < 0 by {
                let k = choose|k: int| 0 <= k < r.len() && r[k].msg.id == x;
                let w = choose|w: int|
                    0 <= w < s.len() && r[k].msg == s[w].msg && r[k].rounds == s[w].rounds
                        && s[w].rounds < 0 && r[k].send == false;
                assert(s[w].msg.id == x && s[w].rounds < 0);
            }
            assert forall|x: u128|
                (exists|i: int| 0 <= i < s.len() && s[i].msg.id == x && #[trigger] s[i].rounds < 0)
                implies #[trigger] spec_buf_contains_id(r, x) by {
                let i = choose|i: int| 0 <= i < s.len() && s[i].msg.id == x && s[i].rounds < 0;
                if i == 0 {
                    assert(r[0].msg.id == x);
                } else {
                    assert(d[i - 1].msg.id == x && d[i - 1].rounds < 0);
                    assert(spec_buf_contains_id(rd, x));
                    let k = choose|k: int| 0 <= k < rd.len() && rd[k].msg.id == x;
                    assert(r[k + 1].msg.id == x);
                }
            }
            if spec_buf_distinct_ids(s) {
                assert(spec_buf_distinct_ids(d));
                assert forall|i: int, j: int|
                    0 <= i < r.len() && 0 <= j < r.len() && i != j implies r[i].msg.id
                    != r[j].msg.id by {
                    if i == 0 || j == 0 {
                        let k = if i == 0 { j } else { i };
                        let w = choose|w: int|
                            0 <= w < d.len() && rd[k - 1].msg == d[w].msg && rd[k - 1].rounds
                                == d[w].rounds && d[w].rounds < 0 && rd[k - 1].send == false;
                        assert(r[k].msg == s[w + 1].msg);
                        assert(s[0].msg.id != s[w + 1].msg.id);
                    } else {
                        assert(rd[i - 1].msg.id != rd[j - 1].msg.id);
                    }
                }
            }
        } else {
            assert(r == rd);
            assert forall|k: int| 0 <= k < r.len() implies exists|w: int|
                0 <= w < s.len() && #[trigger] r[k].msg == s[w].msg && r[k].rounds == s[w].rounds
                    && s[w].rounds < 0 && r[k].send == false by {
                let w = choose|w: int|
                    0 <= w < d.len() && rd[k].msg == d[w].msg && rd[k].rounds == d[w].rounds
                        && d[w].rounds < 0 && rd[k].send == false;
                assert(r[k].msg == s[w + 1].msg && r[k].rounds == s[w + 1].rounds && s[w + 1].rounds
                    < 0 && r[k].send == false);
            }
            assert forall|x: u128| #[trigger] spec_buf_contains_id(r, x) implies exists|i: int|
                0 <= i < s.len() && s[i].msg.id == x && #[trigger] s[i].rounds < 0 by {
                let k = choose|k: int| 0 <= k < r.len() && r[k].msg.id == x;
                let w = choose|w: int|
                    0 <= w < s.len() && r[k].msg == s[w].msg && r[k].rounds == s[w].rounds
                        && s[w].rounds < 0 && r[k].send == false;
                assert(s[w].msg.id == x && s[w].rounds < 0);
            }
            assert forall|x: u128|
                (exists|i: int| 0 <= i < s.len() && s[i].msg.id == x && #[trigger] s[i].rounds < 0)
                implies #[trigger] spec_buf_contains_id(r, x) by {
                let i = choose|i: int| 0 <= i < s.len() && s[i].msg.id == x && s[i].rounds < 0;
                assert(i != 0);
                assert(d[i - 1].msg.id == x && d[i - 1].rounds < 0);
                assert(spec_buf_contains_id(rd, x));
            }
        }
    }
}

/// What aging does to the keep-buffer: every kept entry is an original
/// one with its budget one lower and at least `-limit`, exactly the
/// identifiers of entries that survive, and distinctness.
proof fn lemma_age_keep_spec(s: Seq<BufferedBroadcast>, limit: int)
    requires
        0 <= limit <= i32::MAX,
    ensures
        forall|x: u128|
            #[trigger] spec_buf_contains_id(spec_age_keep(s, limit), x) <==> exists|i: int|
                0 <= i < s.len() && s[i].msg.id == x && #[trigger] s[i].rounds - 1 >= -limit,
        forall|k: int|
            0 <= k < spec_age_keep(s, limit).len() ==> exists|w: int|
                0 <= w < s.len() && #[trigger] spec_age_keep(s, limit)[k].msg == s[w].msg
                    && spec_age_keep(s, limit)[k].rounds == s[w].rounds - 1 && s[w].rounds - 1
                    >= -limit && spec_age_keep(s, limit)[k].send == s[w].send,
        spec_buf_distinct_ids(s) ==> spec_buf_distinct_ids(spec_age_keep(s, limit)),
    decreases s.len(),
{
    let r = spec_age_keep(s, limit);
    if s.len() == 0 {
        assert forall|x: u128| #[trigger] spec_buf_contains_id(r, x) implies false by {}
    } else {
        let d = s.drop_first();
        let rd = spec_age_keep(d, limit);
        lemma_age_keep_spec(d, limit);
        assert(forall|i: int| 0 <= i < d.len() ==> #[trigger] d[i] == s[i + 1]);
        if s.first().rounds - 1 >= -limit {
            let head = BufferedBroadcast {
                msg: s.first().msg,
                rounds: (s.first().rounds - 1) as i32,
                send: s.first().send,
            };
            assert(r == seq![head] + rd);
            assert(r[0] == head);
            assert(head.rounds == s[0].rounds - 1);
            assert(forall|k: int| 0 <= k < rd.len() ==> #[trigger] r[k + 1] == rd[k]);
            assert forall|k: int| 0 <= k < r.len() implies exists|w: int|
                0 <= w < s.len() && #[trigger] r[k].msg == s[w].msg && r[k].rounds == s[w].rounds
                    - 1 && s[w].rounds - 1 >= -limit && r[k].send == s[w].send by {
                if k == 0 {
                    assert(r[0].msg == s[0].msg && r[0].rounds == s[0].rounds - 1 && s[0].rounds - 1
                        >= -limit && r[0].send == s[0].send);
                } else {
                    let w = choose|w: int|
                        0 <= w < d.len() && rd[k - 1].msg == d[w].msg && rd[k - 1].rounds
                            == d[w].rounds - 1 && d[w].rounds - 1 >= -limit && rd[k - 1].send
                            == d[w].send;
                    assert(r[k].msg == s[w + 1].msg && r[k].rounds == s[w + 1].rounds - 1 && s[w
                        + 1].rounds - 1 >= -limit && r[k].send == s[w + 1].send);
                }
            }
            assert forall|x: u128| #[trigger] spec_buf_contains_id(r, x) implies exists|i: int|
                0 <= i < s.len() && s[i].msg.id == x && #[trigger] s[i].rounds - 1 >= -limit by {
                let k = choose|k: int| 0 <= k < r.len() && r[k].msg.id == x;
                let w = choose|w: int|
                    0 <= w < s.len() && r[k].msg == s[w].msg && r[k].rounds == s[w].rounds - 1
                        && s[w].rounds - 1 >= -limit && r[k].send == s[w].send;
                assert(s[w].msg.id == x && s[w].rounds - 1 >= -limit);
            }
            assert forall|x: u128|
                (exists|i: int|
                    0 <= i < s.len() && s[i].msg.id == x && #[trigger] s[i].rounds - 1 >= -limit)
                implies #[trigger] spec_buf_contains_id(r, x) by {
                let i = choose|i: int|
                    0 <= i < s.len() && s[i].msg.id == x && s[i].rounds - 1 >= -limit;
                if i == 0 {
                    assert(r[0].msg.id == x);
                } else {
                    assert(d[i - 1].msg.id == x && d[i - 1].rounds - 1 >= -limit);
                    assert(spec_buf_contains_id(rd, x));
                    let k = choose|k: int| 0 <= k < rd.len() && rd[k].msg.id == x;
                    assert(r[k + 1].msg.id == x);
                }
            }
            if spec_buf_distinct_ids(s) {
                assert(spec_buf_distinct_ids(d));
                assert forall|i: int, j: int|
                    0 <= i < r.len() && 0 <= j < r.len() && i != j implies r[i].msg.id
                    != r[j].msg.id by {
                    if i == 0 || j == 0 {
                        let k = if i == 0 { j } else { i };
                        let w = choose|w: int|
                            0 <= w < d.len() && rd[k - 1].msg == d[w].msg && rd[k - 1].rounds
                                == d[w].rounds - 1 && d[w].rounds - 1 >= -limit && rd[k - 1].send
                                == d[w].send;
                        assert(r[k].msg == s[w + 1].msg);
                        assert(s[0].msg.id != s[w + 1].msg.id);
                    } else {
                        assert(rd[i - 1].msg.id != rd[j - 1].msg.id);
                    }
                }
            }
        } else {
            assert(r == rd);
            assert forall|k: int| 0 <= k < r.len() implies exists|w: int|
                0 <= w < s.len() && #[trigger] r[k].msg == s[w].msg && r[k].rounds == s[w].rounds
                    - 1 && s[w].rounds - 1 >= -limit && r[k].send == s[w].send by {
                let w = choose|w: int|
                    0 <= w < d.len() && rd[k].msg == d[w].msg && rd[k].rounds == d[w].rounds - 1
                        && d[w].rounds - 1 >= -limit && rd[k].send == d[w].send;
                assert(r[k].msg == s[w + 1].msg && r[k].rounds == s[w + 1].rounds - 1 && s[w
                    + 1].rounds - 1 >= -limit && r[k].send == s[w + 1].send);
            }
            assert forall|x: u128| #[trigger] spec_buf_contains_id(r, x) implies exists|i: int|
                0 <= i < s.len() && s[i].msg.id == x && #[trigger] s[i].rounds - 1 >= -limit by {
                let k = choose|k: int| 0 <= k < r.len() && r[k].msg.id == x;
                let w = choose|w: int|
                    0 <= w < s.len() && r[k].msg == s[w].msg && r[k].rounds == s[w].rounds - 1
                        && s[w].rounds - 1 >= -limit && r[k].send == s[w].send;
                assert(s[w].msg.id == x && s[w].rounds - 1 >= -limit);
            }
            assert forall|x: u128|
                (exists|i: int|
                    0 <= i < s.len() && s[i].msg.id == x && #[trigger] s[i].rounds - 1 >= -limit)
                implies #[trigger] spec_buf_contains_id(r, x) by {
                let i = choose|i: int|
                    0 <= i < s.len() && s[i].msg.id == x && s[i].rounds - 1 >= -limit;
                assert(i != 0);
                assert(d[i - 1].msg.id == x && d[i - 1].rounds - 1 >= -limit);
                assert(spec_buf_contains_id(rd, x));
            }
        }
    }
}

/// Concatenation holds an identifier exactly when one part does, and two
/// distinct, disjoint parts concatenate to a distinct whole.
proof fn lemma_buf_concat_spec(a: Seq<BufferedBroadcast>, b: Seq<BufferedBroadcast>)
    ensures
        forall|x: u128|
            #[trigger] spec_buf_contains_id(a + b, x) <==> (spec_buf_contains_id(a, x)
                || spec_buf_contains_id(b, x)),
        (spec_buf_distinct_ids(a) && spec_buf_distinct_ids(b) && spec_buf_disjoint(a, b))
            ==> spec_buf_distinct_ids(a + b),
{
    let c = a + b;
    assert(forall|i: int| 0 <= i < a.len() ==> #[trigger] c[i] == a[i]);
    assert(forall|i: int| 0 <= i < b.len() ==> #[trigger] c[a.len() + i] == b[i]);
    assert forall|x: u128| #[trigger]
        spec_buf_contains_id(c, x) implies (spec_buf_contains_id(a, x) || spec_buf_contains_id(
        b,
        x,
    )) by {
        let i = choose|i: int| 0 <= i < c.len() && c[i].msg.id == x;
        if i < a.len() {
            assert(a[i].msg.id == x);
        } else {
            assert(b[i - a.len()].msg.id == x);
        }
    }
    assert forall|x: u128|
        (spec_buf_contains_id(a, x) || spec_buf_contains_id(b, x)) implies #[trigger]
        spec_buf_contains_id(c, x) by {
        if spec_buf_contains_id(a, x) {
            let i = choose|i: int| 0 <= i < a.len() && a[i].msg.id == x;
            assert(c[i].msg.id == x);
        } else {
            let i = choose|i: int| 0 <= i < b.len() && b[i].msg.id == x;
            assert(c[a.len() + i].msg.id == x);
        }
    }
}

} // verus!

use crate::codec::copy_range;
use crate::membership::sample_distinct_members;
use crate::membership::spec_distinct_ids;

verus! {

/// True when the broadcast identifier `id` sits in either gossip buffer.
pub open spec fn spec_seen(
    send: Seq<BufferedBroadcast>,
    keep: Seq<BufferedBroadcast>,
    id: u128,
) -> bool {
    spec_buf_contains_id(send, id) || spec_buf_contains_id(keep, id)
}

/// The send-buffer after a broadcast with bookkeeping `bb` arrives: an
/// already-seen identifier is dropped silently, anything else is buffered
/// for dissemination.
pub open spec fn spec_deliver(
    send: Seq<BufferedBroadcast>,
    keep: Seq<BufferedBroadcast>,
    bb: BufferedBroadcast,
) -> Seq<BufferedBroadcast> {
    if spec_seen(send, keep, bb.msg.id) {
        send
    } else {
        send.push(bb)
    }
}

/// Law: after a broadcast is delivered once, its identifier is seen, so a
/// second delivery of the same broadcast is dropped and listeners hear of
/// it exactly once.
pub proof fn lemma_duplicate_broadcast_not_notified(
    send: Seq<BufferedBroadcast>,
    keep: Seq<BufferedBroadcast>,
    bb: BufferedBroadcast,
)
    ensures
        spec_seen(spec_deliver(send, keep, bb), keep, bb.msg.id),
{
    if !spec_seen(send, keep, bb.msg.id) {
        let after = spec_deliver(send, keep, bb);
        assert(after[send.len() as int].msg.id == bb.msg.id);
    }
}

/// True when `v` buffers the broadcast identifier `id`.
fn buf_contains_id_vec(v: &Vec<BufferedBroadcast>, id: u128) -> (r: bool)
    ensures
        r == spec_buf_contains_id(v@, id),
{
    let n = v.len();
    let mut i: usize = 0;
    while i < n
        invariant
            i <= n,
            n == v@.len(),
            forall|k: int| 0 <= k < i ==> v@[k].msg.id != id,
        decreases n - i,
    {
        if v[i].msg.id == id {
            proof {
                assert(v@[i as int].msg.id == id);
            }
            return true;
        }
        i = i + 1;
    }
    false
}

/// A copy of a gossip envelope with the same identifier and payload.
fn clone_broadcast(m: &BroadcastMessage) -> (r: BroadcastMessage)
    ensures
        r@ == m@,
{
    let len = m.payload.len();
    let payload = copy_range(&m.payload, 0, len);
    proof {
        assert(m.payload@.subrange(0, len as int) =~= m.payload@);
    }
    BroadcastMessage { id: m.id, payload }
}

/// The gossip state: the dissemination fanout, the keep-phase retention
/// budget, and the two buffers keyed by broadcast identifier.
pub struct GossipProtocol {
    pub fanout: u32,
    pub message_keep: i32,
    pub send_buffer: Vec<BufferedBroadcast>,
    pub keep_buffer: Vec<BufferedBroadcast>,
}

impl GossipProtocol {
    /// The gossip invariant: an identifier appears at most once over both
    /// buffers, send-phase budgets are non-negative, keep-phase budgets
    /// sit above the eviction line, and the configuration is sane.
    pub open spec fn wf(self) -> bool {
        &&& self.fanout >= 1
        &&& 0 <= self.message_keep < i32::MAX
        &&& spec_buf_distinct_ids(self.send_buffer@)
        &&& spec_buf_distinct_ids(self.keep_buffer@)
        &&& spec_buf_disjoint(self.send_buffer@, self.keep_buffer@)
        &&& forall|i: int|
            0 <= i < self.send_buffer@.len() ==> #[trigger] self.send_buffer@[i].rounds >= 0
        &&& forall|i: int|
            0 <= i < self.keep_buffer@.len() ==> #[trigger] self.keep_buffer@[i].rounds
                >= -self.message_keep
    }

    /// True when `id` sits in either buffer.
    pub open spec fn spec_has_seen(self, id: u128) -> bool {
        spec_seen(self.send_buffer@, self.keep_buffer@, id)
    }

    /// Fresh gossip state with empty buffers.  A fanout of zero would
    /// divide the round formula by zero, and a retention budget outside
    /// `[0, i32::MAX)` could not be counted down, so both are ruled out.
    pub fn new(config: &BroadcastConfig) -> (r: GossipProtocol)
        requires
            config.fanout >= 1,
            0 <= config.message_keep < i32::MAX,
        ensures
            r.wf(),
            r.fanout == config.fanout,
            r.message_keep == config.message_keep,
            r.send_buffer@.len() == 0,
            r.keep_buffer@.len() == 0,
    {
        GossipProtocol {
            fanout: config.fanout,
            message_keep: config.message_keep,
            send_buffer: Vec::new(),
            keep_buffer: Vec::new(),
        }
    }

    /// True when `id` sits in either buffer: such a broadcast is dropped
    /// silently when it arrives again.
    pub fn buffer_contains(&self, id: u128) -> (r: bool)
        ensures
            r == self.spec_has_seen(id),
    {
        let in_send = buf_contains_id_vec(&self.send_buffer, id);
        let in_keep = buf_contains_id_vec(&self.keep_buffer, id);
        in_send || in_keep
    }

    /// True when `id` is still being disseminated.
    pub fn send_buffer_contains(&self, id: u128) -> (r: bool)
        ensures
            r == spec_buf_contains_id(self.send_buffer@, id),
    {
        buf_contains_id_vec(&self.send_buffer, id)
    }

    /// True when `id` is kept only for de-duplication.
    pub fn keep_buffer_contains(&self, id: u128) -> (r: bool)
        ensures
            r == spec_buf_contains_id(self.keep_buffer@, id),
    {
        buf_contains_id_vec(&self.keep_buffer, id)
    }

    /// Buffers `msg` for dissemination with a fresh round budget drawn
    /// from the current peer count, unless its identifier was already
    /// seen.  Returns whether the buffer grew.
    pub fn add_to_send_buffer(&mut self, msg: BroadcastMessage, peer_count: usize) -> (added: bool)
        requires
            old(self).wf(),
        ensures
            final(self).wf(),
            final(self).fanout == old(self).fanout,
            final(self).message_keep == old(self).message_keep,
            final(self).keep_buffer == old(self).keep_buffer,
            added == !old(self).spec_has_seen(msg.id),
            final(self).send_buffer@ == spec_deliver(
                old(self).send_buffer@,
                old(self).keep_buffer@,
                (BufferedBroadcast {
                    msg,
                    rounds: spec_rounds_count(peer_count as int, old(self).fanout as int) as i32,
                    send: true,
                }),
            ),
    {
        if self.buffer_contains(msg.id) {
            return false;
        }
        let rounds = get_rounds_count(peer_count, self.fanout);
        let ghost id = msg.id;
        self.send_buffer.push(BufferedBroadcast { msg, rounds, send: true });
        proof {
            let m = self.send_buffer@;
            let o = old(self).send_buffer@;
            assert forall|i: int, j: int|
                0 <= i < m.len() && 0 <= j < m.len() && i != j implies m[i].msg.id
                != m[j].msg.id by {
                if i == o.len() || j == o.len() {
                    let k = if i == o.len() { j } else { i };
                    if o[k].msg.id == id {
                        assert(spec_buf_contains_id(o, id));
                    }
                }
            }
            assert forall|i: int, j: int|
                0 <= i < m.len() && 0 <= j < self.keep_buffer@.len() implies m[i].msg.id
                != self.keep_buffer@[j].msg.id by {
                if i == o.len() {
                    if self.keep_buffer@[j].msg.id == id {
                        assert(spec_buf_contains_id(self.keep_buffer@, id));
                    }
                }
            }
        }
        true
    }

    /// Synthesizes a broadcast with a fresh random identifier around the
    /// application's payload and buffers it for dissemination.  Local
    /// broadcast listeners are not notified.  Should the random
    /// identifier collide with a buffered one, the payload is dropped.
    pub fn send_new_broadcast(&mut self, payload: Vec<u8>, peer_count: usize)
        requires
            old(self).wf(),
        ensures
            final(self).wf(),
            final(self).fanout == old(self).fanout,
            final(self).message_keep == old(self).message_keep,
            final(self).keep_buffer == old(self).keep_buffer,
            final(self).send_buffer@ == old(self).send_buffer@ || (
            final(self).send_buffer@.len() == old(self).send_buffer@.len() + 1
                && final(self).send_buffer@.take(old(self).send_buffer@.len() as int) == old(
                self,
            ).send_buffer@ && final(self).send_buffer@.last().msg.payload@ == payload@
                && !old(self).spec_has_seen(final(self).send_buffer@.last().msg.id)
                && final(self).send_buffer@.last().rounds == spec_rounds_count(
                peer_count as int,
                old(self).fanout as int,
            ) as i32 && final(self).send_buffer@.last().send == true),
    {
        let id = gen_msg_id();
        let bm = BroadcastMessage { id, payload };
        let added = self.add_to_send_buffer(bm, peer_count);
        proof {
            if added {
                assert(self.send_buffer@.take(old(self).send_buffer@.len() as int) =~= old(
                    self,
                ).send_buffer@);
                assert(self.send_buffer@.last().msg.payload@ == payload@);
            }
        }
    }

    /// Reacts to an inbound broadcast: an already-seen identifier is
    /// dropped silently; a first-seen one is buffered for retransmission
    /// with a full round budget.  Returns whether broadcast listeners
    /// must be notified, which happens exactly on first sight.
    pub fn handle_received_broadcast(&mut self, msg: BroadcastMessage, peer_count: usize) -> (notify:
        bool)
        requires
            old(self).wf(),
        ensures
            final(self).wf(),
            final(self).fanout == old(self).fanout,
            final(self).message_keep == old(self).message_keep,
            final(self).keep_buffer == old(self).keep_buffer,
            notify == !old(self).spec_has_seen(msg.id),
            final(self).send_buffer@ == spec_deliver(
                old(self).send_buffer@,
                old(self).keep_buffer@,
                (BufferedBroadcast {
                    msg,
                    rounds: spec_rounds_count(peer_count as int, old(self).fanout as int) as i32,
                    send: true,
                }),
            ),
    {
        self.add_to_send_buffer(msg, peer_count)
    }
}

} // verus!

verus! {

impl GossipProtocol {
    /// One dissemination round.  With peers and a non-empty send-buffer, a
    /// uniformly random buffered broadcast is chosen, up to `fanout`
    /// distinct peers are sampled for it, and its budget drops by one;
    /// with no peers or nothing to send, nothing is sent.  Entries whose
    /// budget is spent move to the keep-buffer with the send flag
    /// cleared, and the keep-buffer ages by one round, evicting entries
    /// fallen below `-message_keep`.  The caller sends the returned
    /// broadcast to each returned peer.
    pub fn gossip_round(&mut self, members: &Vec<NodeMeta>) -> (plan: Option<
        (BroadcastMessage, Vec<NodeMeta>),
    >)
        requires
            old(self).wf(),
            spec_distinct_ids(members@),
        ensures
            final(self).wf(),
            final(self).fanout == old(self).fanout,
            final(self).message_keep == old(self).message_keep,
            plan is Some <==> (members@.len() > 0 && old(self).send_buffer@.len() > 0),
            match plan {
                Some((bm, peers)) => {
                    &&& peers@.len() == if old(self).fanout <= members@.len() {
                        old(self).fanout as int
                    } else {
                        members@.len() as int
                    }
                    &&& spec_distinct_ids(peers@)
                    &&& forall|k: int| 0 <= k < peers@.len() ==> members@.contains(#[trigger] peers@[k])
                    &&& exists|i: int|
                        {
                            &&& 0 <= i < old(self).send_buffer@.len()
                            &&& bm@ == old(self).send_buffer@[i].msg@
                            &&& final(self).send_buffer@ == spec_still_sending(
                                spec_dec_at(old(self).send_buffer@, i),
                            )
                            &&& final(self).keep_buffer@ == spec_age_keep(
                                old(self).keep_buffer@ + spec_move_ready(
                                    spec_dec_at(old(self).send_buffer@, i),
                                ),
                                old(self).message_keep as int,
                            )
                        }
                },
                None => {
                    &&& final(self).send_buffer@ == spec_still_sending(old(self).send_buffer@)
                    &&& final(self).keep_buffer@ == spec_age_keep(
                        old(self).keep_buffer@ + spec_move_ready(old(self).send_buffer@),
                        old(self).message_keep as int,
                    )
                },
            },
    {
        let ghost orig = old(self).send_buffer@;
        let n_send = self.send_buffer.len();
        let mut plan: Option<(BroadcastMessage, Vec<NodeMeta>)> = None;
        if members.len() > 0 && n_send > 0 {
            let i = rand_below(n_send);
            let mut e = self.send_buffer.remove(i);
            let bm = clone_broadcast(&e.msg);
            e.rounds = e.rounds - 1;
            self.send_buffer.insert(i, e);
            proof {
                assert(self.send_buffer@ =~= spec_dec_at(orig, i as int));
            }
            let fanout = self.fanout;
            let peers = sample_distinct_members(members, fanout as usize);
            plan = Some((bm, peers));
        }
        let ghost after1 = self.send_buffer@;
        proof {
            assert(after1.len() == orig.len());
            assert forall|k: int| 0 <= k < orig.len() implies #[trigger] after1[k].msg.id
                == orig[k].msg.id && after1[k].rounds >= -1 by {
                assert(orig[k].rounds >= 0);
            }
            assert forall|a: int, b: int|
                0 <= a < after1.len() && 0 <= b < after1.len() && a != b implies after1[a].msg.id
                != after1[b].msg.id by {
                assert(orig[a].msg.id != orig[b].msg.id);
            }
            assert forall|a: int, b: int|
                0 <= a < after1.len() && 0 <= b < old(self).keep_buffer@.len() implies after1[a].msg.id
                != old(self).keep_buffer@[b].msg.id by {
                assert(orig[a].msg.id != old(self).keep_buffer@[b].msg.id);
            }
        }
        // Split the send-buffer into entries still sending and entries
        // whose budget is spent.
        let mut stay: Vec<BufferedBroadcast> = Vec::new();
        let mut moved: Vec<BufferedBroadcast> = Vec::new();
        while self.send_buffer.len() > 0
            invariant
                spec_still_sending(after1) == stay@ + spec_still_sending(self.send_buffer@),
                spec_move_ready(after1) == moved@ + spec_move_ready(self.send_buffer@),
                self.keep_buffer == old(self).keep_buffer,
                self.fanout == old(self).fanout,
                self.message_keep == old(self).message_keep,
            decreases self.send_buffer@.len(),
        {
            let ghost rem0 = self.send_buffer@;
            let ghost stay0 = stay@;
            let ghost moved0 = moved@;
            let e = self.send_buffer.remove(0);
            proof {
                assert(self.send_buffer@ =~= rem0.drop_first());
                assert(rem0.first() == e);
            }
            if e.rounds >= 0 {
                stay.push(e);
                proof {
                    assert(spec_still_sending(rem0) == seq![e] + spec_still_sending(
                        rem0.drop_first(),
                    ));
                    assert(stay0.push(e) + spec_still_sending(self.send_buffer@) =~= stay0 + (
                    seq![e] + spec_still_sending(self.send_buffer@)));
                    assert(spec_move_ready(rem0) == spec_move_ready(rem0.drop_first()));
                }
            } else {
                let mut moved_entry = e;
                moved_entry.send = false;
                moved.push(moved_entry);
                proof {
                    assert(moved_entry == (BufferedBroadcast {
                        msg: rem0.first().msg,
                        rounds: rem0.first().rounds,
                        send: false,
                    }));
                    assert(spec_move_ready(rem0) == seq![moved_entry] + spec_move_ready(
                        rem0.drop_first(),
                    ));
                    assert(moved0.push(moved_entry) + spec_move_ready(self.send_buffer@) =~= moved0
                        + (seq![moved_entry] + spec_move_ready(self.send_buffer@)));
                    assert(spec_still_sending(rem0) == spec_still_sending(rem0.drop_first()));
                }
            }
        }
        proof {
            assert(stay@ + spec_still_sending(self.send_buffer@) =~= stay@);
            assert(moved@ + spec_move_ready(self.send_buffer@) =~= moved@);
        }
        self.send_buffer = stay;
        self.keep_buffer.append(&mut moved);
        let ghost keep_mid = self.keep_buffer@;
        proof {
            assert(keep_mid == old(self).keep_buffer@ + spec_move_ready(after1));
            lemma_still_sending_spec(after1);
            lemma_move_ready_spec(after1);
            assert forall|k: int| 0 <= k < keep_mid.len() implies #[trigger] keep_mid[k].rounds
                >= -self.message_keep - 1 by {
                if k < old(self).keep_buffer@.len() {
                    assert(keep_mid[k] == old(self).keep_buffer@[k]);
                    assert(old(self).keep_buffer@[k].rounds >= -old(self).message_keep);
                } else {
                    let mv = spec_move_ready(after1);
                    let b = k - old(self).keep_buffer@.len();
                    assert(keep_mid[k] == mv[b]);
                    assert(0 <= b < mv.len());
                    let w = choose|w: int|
                        0 <= w < after1.len() && mv[b].msg == after1[w].msg && mv[b].rounds
                            == after1[w].rounds && after1[w].rounds < 0 && mv[b].send == false;
                    assert(after1[w].rounds >= -1);
                }
            }
        }
        // Age the keep-buffer and evict what fell below the retention line.
        let limit = self.message_keep;
        let mut aged: Vec<BufferedBroadcast> = Vec::new();
        while self.keep_buffer.len() > 0
            invariant
                0 <= limit < i32::MAX,
                limit == old(self).message_keep,
                spec_age_keep(keep_mid, limit as int) == aged@ + spec_age_keep(
                    self.keep_buffer@,
                    limit as int,
                ),
                forall|k: int|
                    0 <= k < self.keep_buffer@.len() ==> #[trigger] self.keep_buffer@[k].rounds
                        >= -limit - 1,
                self.fanout == old(self).fanout,
                self.message_keep == old(self).message_keep,
                self.send_buffer@ == spec_still_sending(after1),
            decreases self.keep_buffer@.len(),
        {
            let ghost rem0 = self.keep_buffer@;
            let ghost aged0 = aged@;
            let mut e = self.keep_buffer.remove(0);
            proof {
                assert(self.keep_buffer@ =~= rem0.drop_first());
                assert(rem0.first() == e);
            }
            e.rounds = e.rounds - 1;
            if e.rounds >= 0 - limit {
                aged.push(e);
                proof {
                    assert(e == (BufferedBroadcast {
                        msg: rem0.first().msg,
                        rounds: (rem0.first().rounds - 1) as i32,
                        send: rem0.first().send,
                    }));
                    assert(spec_age_keep(rem0, limit as int) == seq![e] + spec_age_keep(
                        rem0.drop_first(),
                        limit as int,
                    ));
                    assert(aged0.push(e) + spec_age_keep(self.keep_buffer@, limit as int) =~= aged0
                        + (seq![e] + spec_age_keep(self.keep_buffer@, limit as int)));
                }
            } else {
                proof {
                    assert(spec_age_keep(rem0, limit as int) == spec_age_keep(
                        rem0.drop_first(),
                        limit as int,
                    ));
                }
            }
        }
        proof {
            assert(aged@ + spec_age_keep(self.keep_buffer@, limit as int) =~= aged@);
        }
        self.keep_buffer = aged;
        proof {
            let lk = old(self).message_keep as int;
            let send2 = self.send_buffer@;
            let keep2 = self.keep_buffer@;
            let mv = spec_move_ready(after1);
            let ok = old(self).keep_buffer@;
            lemma_buf_concat_spec(ok, mv);
            lemma_age_keep_spec(keep_mid, lk);
            // distinctness of the merged keep-buffer before aging
            assert forall|a: int, b: int|
                0 <= a < ok.len() && 0 <= b < mv.len() implies ok[a].msg.id != mv[b].msg.id by {
                if ok[a].msg.id == mv[b].msg.id {
                    let w = choose|w: int|
                        0 <= w < after1.len() && mv[b].msg == after1[w].msg && mv[b].rounds
                            == after1[w].rounds && after1[w].rounds < 0 && mv[b].send == false;
                    assert(after1[w].msg.id == ok[a].msg.id);
                    assert(false);
                }
            }
            assert(spec_buf_distinct_ids(keep_mid));
            // the new send-buffer keeps non-negative budgets and distinct ids
            assert(spec_buf_distinct_ids(send2));
            assert forall|k: int| 0 <= k < send2.len() implies #[trigger] send2[k].rounds >= 0 by {
                let w = choose|w: int|
                    0 <= w < after1.len() && send2[k] == after1[w] && after1[w].rounds >= 0;
            }
            // the new keep-buffer sits above the retention line
            assert forall|k: int| 0 <= k < keep2.len() implies #[trigger] keep2[k].rounds
                >= -old(self).message_keep by {
                let w = choose|w: int|
                    0 <= w < keep_mid.len() && keep2[k].msg == keep_mid[w].msg && keep2[k].rounds
                        == keep_mid[w].rounds - 1 && keep_mid[w].rounds - 1 >= -lk && keep2[k].send
                        == keep_mid[w].send;
            }
            // the two buffers stay disjoint
            assert forall|a: int, b: int|
                0 <= a < send2.len() && 0 <= b < keep2.len() implies send2[a].msg.id
                != keep2[b].msg.id by {
                if send2[a].msg.id == keep2[b].msg.id {
                    let x = send2[a].msg.id;
                    assert(spec_buf_contains_id(send2, x));
                    assert(spec_buf_contains_id(keep2, x));
                    let i1 = choose|i1: int|
                        0 <= i1 < after1.len() && after1[i1].msg.id == x && after1[i1].rounds >= 0;
                    assert(spec_buf_contains_id(keep_mid, x));
                    if spec_buf_contains_id(ok, x) {
                        let a2 = choose|a2: int| 0 <= a2 < ok.len() && ok[a2].msg.id == x;
                        assert(after1[i1].msg.id == ok[a2].msg.id);
                        assert(false);
                    } else {
                        assert(spec_buf_contains_id(mv, x));
                        let i2 = choose|i2: int|
                            0 <= i2 < after1.len() && after1[i2].msg.id == x && after1[i2].rounds
                                < 0;
                        assert(i1 != i2);
                        assert(false);
                    }
                }
            }
        }
        plan
    }
}

} // verus!
