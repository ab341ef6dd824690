use vstd::prelude::*;
use crate::frame::CanError;

verus! {

/// Bit-stuffing of a destuffed bit stream: after five consecutive equal
/// bits the complement is inserted before the stream resumes. `val` and
/// `run` describe the run of identical bits already emitted before `s`
/// (`run <= 4`; a fresh stream starts with `run == 0`).
pub open spec fn stuff_from(s: Seq<bool>, val: bool, run: nat) -> Seq<bool>
    decreases s.len(),
{
    if s.len() == 0 {
        Seq::empty()
    } else {
        let b = s[0];
        if b == val && run == 4 {
            seq![b, !b] + stuff_from(s.skip(1), !b, 1)
        } else if b == val {
            seq![b] + stuff_from(s.skip(1), val, (run + 1) as nat)
        } else {
            seq![b] + stuff_from(s.skip(1), b, 1)
        }
    }
}

/// The run state of the stuffing automaton after emitting `s` from
/// state `(val, run)`.
pub open spec fn stuff_fin(s: Seq<bool>, val: bool, run: nat) -> (bool, nat)
    decreases s.len(),
{
    if s.len() == 0 {
        (val, run)
    } else {
        let b = s[0];
        if b == val && run == 4 {
            stuff_fin(s.skip(1), !b, 1)
        } else if b == val {
            stuff_fin(s.skip(1), val, (run + 1) as nat)
        } else {
            stuff_fin(s.skip(1), b, 1)
        }
    }
}

/// Stuffing of a whole stream, with no prior run.
pub open spec fn stuff_spec(s: Seq<bool>) -> Seq<bool> {
    stuff_from(s, true, 0)
}

/// Destuffing of a raw stream from run state `(val, run)`: after five
/// consecutive equal bits the next bit must be the complement and is
/// discarded; a sixth equal bit is a stuff error (`None`).
pub open spec fn destuff_from(raw: Seq<bool>, val: bool, run: nat) -> Option<Seq<bool>>
    decreases raw.len(),
{
    if raw.len() == 0 {
        Some(Seq::empty())
    } else {
        let b = raw[0];
        if run == 5 {
            if b == val {
                None
            } else {
                destuff_from(raw.skip(1), b, 1)
            }
        } else {
            let t = destuff_from(
                raw.skip(1),
                b,
                if b == val {
                    (run + 1) as nat
                } else {
                    1
                },
            );
            if t is Some {
                Some(seq![b] + t->Some_0)
            } else {
                None
            }
        }
    }
}

/// Destuffing of a whole raw stream, with no prior run.
pub open spec fn destuff_spec(raw: Seq<bool>) -> Option<Seq<bool>> {
    destuff_from(raw, true, 0)
}

/// The stuff codec law, generalized over the carried run state: destuffing
/// undoes stuffing exactly.
pub proof fn lemma_destuff_stuff_from(s: Seq<bool>, val: bool, run: nat)
    requires
        run <= 4,
    ensures
        destuff_from(stuff_from(s, val, run), val, run) == Some(s),
    decreases s.len(),
{
    if s.len() == 0 {
    } else {
        let b = s[0];
        assert(s =~= seq![b] + s.skip(1));
        if b == val && run == 4 {
            lemma_destuff_stuff_from(s.skip(1), !b, 1);
            let rest = stuff_from(s.skip(1), !b, 1);
            let st = stuff_from(s, val, run);
            assert(st == seq![b, !b] + rest);
            assert(st[0] == b);
            assert(st.skip(1) =~= seq![!b] + rest);
            assert((seq![!b] + rest).skip(1) =~= rest);
            assert(destuff_from(st.skip(1), b, 5) == destuff_from(rest, !b, 1));
        } else if b == val {
            lemma_destuff_stuff_from(s.skip(1), val, (run + 1) as nat);
            let rest = stuff_from(s.skip(1), val, (run + 1) as nat);
            let st = stuff_from(s, val, run);
            assert(st == seq![b] + rest);
            assert(st[0] == b);
            assert(st.skip(1) =~= rest);
        } else {
            lemma_destuff_stuff_from(s.skip(1), b, 1);
            let rest = stuff_from(s.skip(1), b, 1);
            let st = stuff_from(s, val, run);
            assert(st == seq![b] + rest);
            assert(st[0] == b);
            assert(st.skip(1) =~= rest);
        }
    }
}

/// The stuff codec law: for any bit sequence, destuffing the stuffed
/// stream yields the original sequence and never reports a stuff error.
pub proof fn lemma_stuff_roundtrip(s: Seq<bool>)
    ensures
        destuff_spec(stuff_spec(s)) == Some(s),
{
    lemma_destuff_stuff_from(s, true, 0);
}

/// Stuffing distributes over concatenation, threading the run state.
pub proof fn lemma_stuff_from_concat(x: Seq<bool>, y: Seq<bool>, val: bool, run: nat)
    ensures
        stuff_from(x + y, val, run) == stuff_from(x, val, run) + stuff_from(
            y,
            stuff_fin(x, val, run).0,
            stuff_fin(x, val, run).1,
        ),
        stuff_fin(x + y, val, run) == stuff_fin(y, stuff_fin(x, val, run).0, stuff_fin(x, val, run).1),
    decreases x.len(),
{
    if x.len() == 0 {
        assert(x + y =~= y);
        assert(stuff_from(x, val, run) + stuff_from(y, val, run) =~= stuff_from(y, val, run));
    } else {
        let b = x[0];
        assert((x + y).skip(1) =~= x.skip(1) + y);
        if b == val && run == 4 {
            lemma_stuff_from_concat(x.skip(1), y, !b, 1);
            assert(seq![b, !b] + (stuff_from(x.skip(1), !b, 1) + stuff_from(
                y,
                stuff_fin(x.skip(1), !b, 1).0,
                stuff_fin(x.skip(1), !b, 1).1,
            )) =~= (seq![b, !b] + stuff_from(x.skip(1), !b, 1)) + stuff_from(
                y,
                stuff_fin(x.skip(1), !b, 1).0,
                stuff_fin(x.skip(1), !b, 1).1,
            ));
        } else if b == val {
            lemma_stuff_from_concat(x.skip(1), y, val, (run + 1) as nat);
            assert(seq![b] + (stuff_from(x.skip(1), val, (run + 1) as nat) + stuff_from(
                y,
                stuff_fin(x.skip(1), val, (run + 1) as nat).0,
                stuff_fin(x.skip(1), val, (run + 1) as nat).1,
            )) =~= (seq![b] + stuff_from(x.skip(1), val, (run + 1) as nat)) + stuff_from(
                y,
                stuff_fin(x.skip(1), val, (run + 1) as nat).0,
                stuff_fin(x.skip(1), val, (run + 1) as nat).1,
            ));
        } else {
            lemma_stuff_from_concat(x.skip(1), y, b, 1);
            assert(seq![b] + (stuff_from(x.skip(1), b, 1) + stuff_from(
                y,
                stuff_fin(x.skip(1), b, 1).0,
                stuff_fin(x.skip(1), b, 1).1,
            )) =~= (seq![b] + stuff_from(x.skip(1), b, 1)) + stuff_from(
                y,
                stuff_fin(x.skip(1), b, 1).0,
                stuff_fin(x.skip(1), b, 1).1,
            ));
        }
    }
}

/// The run counter of the stuffing automaton stays within 1..=4 once any
/// bit has been emitted, and never exceeds 4.
pub proof fn lemma_stuff_fin_bound(s: Seq<bool>, val: bool, run: nat)
    requires
        run <= 4,
    ensures
        stuff_fin(s, val, run).1 <= 4,
        s.len() > 0 ==> 1 <= stuff_fin(s, val, run).1,
    decreases s.len(),
{
    if s.len() > 0 {
        let b = s[0];
        if b == val && run == 4 {
            lemma_stuff_fin_bound(s.skip(1), !b, 1);
        } else if b == val {
            lemma_stuff_fin_bound(s.skip(1), val, (run + 1) as nat);
        } else {
            lemma_stuff_fin_bound(s.skip(1), b, 1);
        }
    }
}

/// A nonempty stream's stuffed form starts with its first bit and is at
/// least as long as the stream.
pub proof fn lemma_stuff_from_first(s: Seq<bool>, val: bool, run: nat)
    ensures
        stuff_from(s, val, run).len() >= s.len(),
        s.len() > 0 ==> stuff_from(s, val, run)[0] == s[0],
    decreases s.len(),
{
    if s.len() > 0 {
        let b = s[0];
        if b == val && run == 4 {
            lemma_stuff_from_first(s.skip(1), !b, 1);
        } else if b == val {
            lemma_stuff_from_first(s.skip(1), val, (run + 1) as nat);
        } else {
            lemma_stuff_from_first(s.skip(1), b, 1);
        }
    }
}

/// Insert a stuff bit after every run of five identical bits.
pub fn stuff(bits: &Vec<bool>) -> (r: Vec<bool>)
    ensures
        r@ == stuff_spec(bits@),
{
    let mut out: Vec<bool> = Vec::new();
    let mut val: bool = true;
    let mut run: u8 = 0;
    let mut i: usize = 0;
    while i < bits.len()
        invariant
            i <= bits.len(),
            run <= 4,
            out@ == stuff_from(bits@.take(i as int), true, 0),
            (val, run as nat) == stuff_fin(bits@.take(i as int), true, 0),
        decreases bits.len() - i,
    {
        let b = bits[i];
        let ghost p = bits@.take(i as int);
        let ghost fin = stuff_fin(p, true, 0);
        proof {
            assert(bits@.take(i as int + 1) =~= p + seq![b]);
            lemma_stuff_from_concat(p, seq![b], true, 0);
            assert(seq![b].skip(1) =~= Seq::<bool>::empty());
        }
        if b == val && run == 4 {
            out.push(b);
            out.push(!b);
            val = !b;
            run = 1;
            proof {
                assert(seq![b, !b] + stuff_from(seq![b].skip(1), !b, 1) =~= seq![b, !b]);
                assert(stuff_from(seq![b], fin.0, fin.1) == seq![b, !b]);
                assert(stuff_fin(Seq::<bool>::empty(), !b, 1) == (!b, 1nat));
                assert(stuff_fin(seq![b], fin.0, fin.1) == (!b, 1nat));
                assert(out@ =~= stuff_from(p, true, 0) + seq![b, !b]);
            }
        } else {
            let ghost v0 = val;
            let ghost r0 = run as nat;
            if b == val {
                run = run + 1;
            } else {
                val = b;
                run = 1;
            }
            out.push(b);
            proof {
                if b == v0 {
                    assert(seq![b] + stuff_from(seq![b].skip(1), v0, (r0 + 1) as nat) =~= seq![b]);
                    assert(stuff_fin(Seq::<bool>::empty(), v0, (r0 + 1) as nat) == (
                        v0,
                        (r0 + 1) as nat,
                    ));
                } else {
                    assert(seq![b] + stuff_from(seq![b].skip(1), b, 1) =~= seq![b]);
                    assert(stuff_fin(Seq::<bool>::empty(), b, 1) == (b, 1nat));
                }
                assert(stuff_from(seq![b], fin.0, fin.1) == seq![b]);
                assert(stuff_fin(seq![b], fin.0, fin.1) == stuff_fin(
                    bits@.take(i as int + 1),
                    true,
                    0,
                ));
                assert(out@ =~= stuff_from(p, true, 0) + seq![b]);
            }
        }
        i = i + 1;
    }
    proof {
        assert(bits@.take(bits@.len() as int) =~= bits@);
    }
    out
}

/// Remove the stuff bits from a raw stream; a sixth consecutive identical
/// bit is reported as a stuff error.
pub fn destuff(raw: &Vec<bool>) -> (r: Result<Vec<bool>, CanError>)
    ensures
        match r {
            Ok(out) => destuff_spec(raw@) == Some(out@),
            Err(e) => destuff_spec(raw@) is None && e == CanError::StuffError,
        },
{
    let mut out: Vec<bool> = Vec::new();
    let mut val: bool = true;
    let mut run: u8 = 0;
    let mut i: usize = 0;
    proof {
        assert(raw@.skip(0int) =~= raw@);
        if destuff_from(raw@, true, 0) is Some {
            assert(Seq::<bool>::empty() + destuff_from(raw@, true, 0)->Some_0 =~= destuff_from(
                raw@,
                true,
                0,
            )->Some_0);
        }
    }
    while i < raw.len()
        invariant
            i <= raw.len(),
            run <= 5,
            destuff_spec(raw@) == match destuff_from(raw@.skip(i as int), val, run as nat) {
                Some(t) => Some(out@ + t),
                None => None::<Seq<bool>>,
            },
        decreases raw.len() - i,
    {
        let b = raw[i];
        proof {
            assert(raw@.skip(i as int).skip(1) =~= raw@.skip(i as int + 1));
            assert(raw@.skip(i as int)[0] == b);
        }
        if run == 5 {
            if b == val {
                return Err(CanError::StuffError);
            }
            val = b;
            run = 1;
        } else {
            if b == val {
                run = run + 1;
            } else {
                val = b;
                run = 1;
            }
            let ghost out0 = out@;
            out.push(b);
            proof {
                let t = destuff_from(raw@.skip(i as int + 1), val, run as nat);
                assert(out@ =~= out0 + seq![b]);
                if t is Some {
                    assert(out0 + (seq![b] + t->Some_0) =~= out@ + t->Some_0);
                }
            }
        }
        i = i + 1;
    }
    proof {
        assert(raw@.skip(raw@.len() as int) =~= Seq::<bool>::empty());
        assert(out@ + Seq::<bool>::empty() =~= out@);
    }
    Ok(out)
}

} // verus!
