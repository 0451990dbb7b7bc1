use vstd::prelude::*;

verus! {

/// A Digital Public Good from the DPGA registry.
#[derive(Clone, Debug)]
pub struct DpgEntry {
    pub name: String,
    pub description: String,
    pub website: String,
    pub repositories: Vec<String>,
    pub stage: String,
    pub wallet_address: Option<String>,
}

/// A good can receive yield: it publishes its source and has a wallet.
pub open spec fn is_recipient(d: DpgEntry) -> bool {
    d.repositories@.len() > 0 && d.wallet_address is Some
}

/// The goods of a sequence that can receive yield, in order.
pub open spec fn recipients(s: Seq<DpgEntry>) -> Seq<DpgEntry>
    decreases s.len(),
{
    if s.len() == 0 {
        Seq::empty()
    } else {
        recipients(s.drop_last()) + (if is_recipient(s.last()) {
            seq![s.last()]
        } else {
            Seq::empty()
        })
    }
}

/// The goods that can receive yield disbursements, in registry order.
pub fn suggest_recipients(dpgs: &[DpgEntry]) -> (r: Vec<&DpgEntry>)
    ensures
        r@.map_values(|e: &DpgEntry| *e) == recipients(dpgs@),
{
    let ghost s = dpgs@;
    let mut r: Vec<&DpgEntry> = Vec::new();
    let mut i: usize = 0;
    while i < dpgs.len()
        invariant
            s == dpgs@,
            i <= s.len(),
            r@.map_values(|e: &DpgEntry| *e) == recipients(s.take(i as int)),
        decreases s.len() - i,
    {
        let d = &dpgs[i];
        let ghost before = r@;
        if d.repositories.len() > 0 && d.wallet_address.is_some() {
            r.push(d);
        }
        proof {
            assert(s.take(i + 1).drop_last() =~= s.take(i as int));
            assert(s.take(i + 1).last() == s[i as int]);
            assert(r@.map_values(|e: &DpgEntry| *e) =~= recipients(s.take(i + 1)));
        }
        i += 1;
    }
    assert(s.take(s.len() as int) =~= s);
    r
}

/// Each suggested good is eligible and comes from the registry; each eligible
/// good of the registry is suggested.
pub proof fn lemma_recipients_are_the_eligible(s: Seq<DpgEntry>)
    ensures
        forall|j: int|
            0 <= j < recipients(s).len() ==> is_recipient(#[trigger] recipients(s)[j]) && s.contains(
                recipients(s)[j],
            ),
        forall|i: int| 0 <= i < s.len() && is_recipient(#[trigger] s[i]) ==> recipients(s).contains(s[i]),
        recipients(s).len() <= s.len(),
    decreases s.len(),
{
    if s.len() > 0 {
        let p = s.drop_last();
        lemma_recipients_are_the_eligible(p);
        let tail = if is_recipient(s.last()) {
            seq![s.last()]
        } else {
            Seq::<DpgEntry>::empty()
        };
        let r = recipients(s);
        assert(r == recipients(p) + tail);
        assert forall|j: int| 0 <= j < r.len() implies is_recipient(#[trigger] r[j]) && s.contains(r[j]) by {
            if j < recipients(p).len() {
                assert(r[j] == recipients(p)[j]);
                let k = choose|k: int| 0 <= k < p.len() && p[k] == r[j];
                assert(s[k] == p[k]);
            } else {
                assert(r[j] == s.last());
                assert(s[s.len() - 1] == s.last());
            }
        }
        assert forall|i: int| 0 <= i < s.len() && is_recipient(#[trigger] s[i]) implies r.contains(s[i]) by {
            if i < s.len() - 1 {
                assert(p[i] == s[i]);
                let k = choose|k: int| 0 <= k < recipients(p).len() && recipients(p)[k] == p[i];
                assert(r[k] == recipients(p)[k]);
            } else {
                assert(r[r.len() - 1] == s.last());
            }
        }
    }
}

/// Where in a sequence each of its eligible goods stands, in order.
pub open spec fn recipient_positions(s: Seq<DpgEntry>) -> Seq<int>
    decreases s.len(),
{
    if s.len() == 0 {
        Seq::empty()
    } else {
        recipient_positions(s.drop_last()) + (if is_recipient(s.last()) {
            seq![s.len() - 1]
        } else {
            Seq::empty()
        })
    }
}

/// The suggested goods are the eligible goods of the registry in registry
/// order: the `j`-th suggestion is the good at a position that grows with `j`,
/// and every eligible position is suggested.
pub proof fn lemma_recipients_keep_registry_order(s: Seq<DpgEntry>)
    ensures
        recipient_positions(s).len() == recipients(s).len(),
        forall|j: int|
            0 <= j < recipients(s).len() ==> {
                &&& 0 <= #[trigger] recipient_positions(s)[j] < s.len()
                &&& recipients(s)[j] == s[recipient_positions(s)[j]]
                &&& is_recipient(s[recipient_positions(s)[j]])
            },
        forall|j1: int, j2: int|
            0 <= j1 < j2 < recipients(s).len() ==> #[trigger] recipient_positions(s)[j1]
                < #[trigger] recipient_positions(s)[j2],
        forall|i: int| 0 <= i < s.len() && is_recipient(#[trigger] s[i]) ==> recipient_positions(s).contains(i),
    decreases s.len(),
{
    if s.len() > 0 {
        let p = s.drop_last();
        lemma_recipients_keep_registry_order(p);
        let pos = recipient_positions(s);
        let ppos = recipient_positions(p);
        let r = recipients(s);
        let pr = recipients(p);
        assert forall|j: int| 0 <= j < r.len() implies {
            &&& 0 <= #[trigger] pos[j] < s.len()
            &&& r[j] == s[pos[j]]
            &&& is_recipient(s[pos[j]])
        } by {
            if j < pr.len() {
                assert(pos[j] == ppos[j]);
                assert(r[j] == pr[j]);
                assert(p[ppos[j]] == s[ppos[j]]);
            } else {
                assert(pos[j] == s.len() - 1);
                assert(r[j] == s.last());
            }
        }
        assert forall|j1: int, j2: int| 0 <= j1 < j2 < r.len() implies #[trigger] pos[j1]
            < #[trigger] pos[j2] by {
            if j2 < pr.len() {
                assert(pos[j1] == ppos[j1] && pos[j2] == ppos[j2]);
            } else {
                assert(pos[j1] == ppos[j1]);
                assert(0 <= ppos[j1] < p.len());
            }
        }
        assert forall|i: int| 0 <= i < s.len() && is_recipient(#[trigger] s[i]) implies pos.contains(i) by {
            if i < s.len() - 1 {
                assert(p[i] == s[i]);
                let k = choose|k: int| 0 <= k < ppos.len() && ppos[k] == i;
                assert(pos[k] == i);
            } else {
                assert(s[i] == s.last());
                assert(pos[pos.len() - 1] == i);
            }
        }
    }
}

} // verus!
