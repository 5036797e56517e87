//! Scan of a process table for a fixed blacklist of high-risk tools.

use vstd::prelude::*;

verus! {

/// One row of the process table: the executable's name and its process ID.
pub struct ProcessEntry {
    pub name: String,
    pub pid: u32,
}

impl View for ProcessEntry {
    type V = (Seq<char>, u32);

    open spec fn view(&self) -> (Seq<char>, u32) {
        (self.name@, self.pid)
    }
}

/// The model of a process table: (name, pid) rows in the order given.
pub open spec fn table_view(t: Seq<ProcessEntry>) -> Seq<(Seq<char>, u32)> {
    t.map_values(|e: ProcessEntry| e@)
}

/// The model of a list of strings.
pub open spec fn texts_view(v: Seq<String>) -> Seq<Seq<char>> {
    v.map_values(|s: String| s@)
}

/// Tools commonly used for cryptojacking, debugging other processes,
/// sniffing traffic or opening network backdoors.
pub open spec fn is_blacklisted(name: Seq<char>) -> bool {
    name == "xmrig"@ || name == "gdb"@ || name == "strace"@ || name == "tcpdump"@ || name == "nc"@
        || name == "ncat"@
}

/// The character for a decimal digit.
pub open spec fn digit_char(d: nat) -> char {
    if d == 0 {
        '0'
    } else if d == 1 {
        '1'
    } else if d == 2 {
        '2'
    } else if d == 3 {
        '3'
    } else if d == 4 {
        '4'
    } else if d == 5 {
        '5'
    } else if d == 6 {
        '6'
    } else if d == 7 {
        '7'
    } else if d == 8 {
        '8'
    } else {
        '9'
    }
}

/// `n` written in decimal, without leading zeros.
pub open spec fn decimal_of(n: nat) -> Seq<char>
    decreases n,
{
    if n < 10 {
        seq![digit_char(n)]
    } else {
        decimal_of(n / 10).push(digit_char(n % 10))
    }
}

/// The report entry for a process: `"<name>:<pid>"`.
pub open spec fn label_of(e: (Seq<char>, u32)) -> Seq<char> {
    e.0 + seq![':'] + decimal_of(e.1 as nat)
}

/// The report entries of the blacklisted processes of `t`, in table order.
pub open spec fn rogue_labels(t: Seq<(Seq<char>, u32)>) -> Seq<Seq<char>> {
    t.filter(|e: (Seq<char>, u32)| is_blacklisted(e.0)).map_values(
        |e: (Seq<char>, u32)| label_of(e),
    )
}

fn is_blacklisted_name(name: &String) -> (r: bool)
    ensures
        r == is_blacklisted(name@),
{
    name.eq(&String::from_str("xmrig")) || name.eq(&String::from_str("gdb")) || name.eq(
        &String::from_str("strace"),
    ) || name.eq(&String::from_str("tcpdump")) || name.eq(&String::from_str("nc")) || name.eq(
        &String::from_str("ncat"),
    )
}

fn digit_str(d: u32) -> (s: &'static str)
    requires
        d < 10,
    ensures
        s@ == seq![digit_char(d as nat)],
{
    proof {
        reveal_strlit("0");
        reveal_strlit("1");
        reveal_strlit("2");
        reveal_strlit("3");
        reveal_strlit("4");
        reveal_strlit("5");
        reveal_strlit("6");
        reveal_strlit("7");
        reveal_strlit("8");
        reveal_strlit("9");
    }
    if d == 0 {
        "0"
    } else if d == 1 {
        "1"
    } else if d == 2 {
        "2"
    } else if d == 3 {
        "3"
    } else if d == 4 {
        "4"
    } else if d == 5 {
        "5"
    } else if d == 6 {
        "6"
    } else if d == 7 {
        "7"
    } else if d == 8 {
        "8"
    } else {
        "9"
    }
}

fn append_decimal(out: &mut String, n: u32)
    ensures
        final(out)@ == old(out)@ + decimal_of(n as nat),
    decreases n,
{
    if n >= 10 {
        append_decimal(out, n / 10);
    }
    out.append(digit_str(n % 10));
    proof {
        if n >= 10 {
            assert(final(out)@ =~= old(out)@ + decimal_of(n as nat));
        }
    }
}

/// The report entry for one process: its name, a colon, and its pid in decimal.
pub fn process_label(entry: &ProcessEntry) -> (label: String)
    ensures
        label@ == label_of(entry@),
{
    let mut label = entry.name.clone();
    proof {
        reveal_strlit(":");
    }
    label.append(":");
    append_decimal(&mut label, entry.pid);
    label
}

/// The report entries `"<name>:<pid>"` of every process in `table` whose name
/// is on the blacklist, in table order.
pub fn find_rogue_procs(table: &Vec<ProcessEntry>) -> (rogue: Vec<String>)
    ensures
        texts_view(rogue@) == rogue_labels(table_view(table@)),
{
    let mut rogue: Vec<String> = Vec::new();
    let mut i: usize = 0;
    while i < table.len()
        invariant
            i <= table@.len(),
            texts_view(rogue@) == rogue_labels(table_view(table@.subrange(0, i as int))),
        decreases table@.len() - i,
    {
        let entry = &table[i];
        let ghost before = table_view(table@.subrange(0, i as int));
        let ghost after = table_view(table@.subrange(0, i as int + 1));
        proof {
            assert(after.drop_last() =~= before);
            assert(after.last() == entry@);
        }
        if is_blacklisted_name(&entry.name) {
            let label = process_label(entry);
            rogue.push(label);
        }
        proof {
            reveal(Seq::filter);
            let pred = |e: (Seq<char>, u32)| is_blacklisted(e.0);
            let kept = before.filter(pred);
            assert(after.filter(pred) == if is_blacklisted(entry@.0) {
                kept.push(entry@)
            } else {
                kept
            });
            if is_blacklisted(entry@.0) {
                assert(kept.push(entry@).map_values(|e: (Seq<char>, u32)| label_of(e))
                    =~= kept.map_values(|e: (Seq<char>, u32)| label_of(e)).push(label_of(entry@)));
            }
            assert(texts_view(rogue@) =~= rogue_labels(after));
        }
        i = i + 1;
    }
    proof {
        assert(table@.subrange(0, i as int) =~= table@);
    }
    rogue
}

/// The scan reports exactly the blacklisted processes: a string is in the
/// result if and only if it is the entry of a process of the table whose name
/// is on the blacklist, and a table without such a name gives an empty result.
pub proof fn lemma_rogue_labels_exact(t: Seq<(Seq<char>, u32)>)
    ensures
        forall|s: Seq<char>|
            #![trigger rogue_labels(t).contains(s)]
            rogue_labels(t).contains(s) <==> exists|i: int|
                0 <= i < t.len() && is_blacklisted(t[i].0) && s == label_of(#[trigger] t[i]),
        (forall|i: int| 0 <= i < t.len() ==> !is_blacklisted(#[trigger] t[i].0)) ==> rogue_labels(
            t,
        ).len() == 0,
    decreases t.len(),
{
    reveal(Seq::filter);
    if t.len() > 0 {
        let rest = t.drop_last();
        let x = t.last();
        lemma_rogue_labels_exact(rest);
        let pred = |e: (Seq<char>, u32)| is_blacklisted(e.0);
        let f = |e: (Seq<char>, u32)| label_of(e);
        let prev = rogue_labels(rest);
        if is_blacklisted(x.0) {
            assert(rogue_labels(t) =~= prev.push(label_of(x))) by {
                assert(t.filter(pred) == rest.filter(pred).push(x));
                assert(rest.filter(pred).push(x).map_values(f) =~= rest.filter(pred).map_values(
                    f,
                ).push(f(x)));
            }
        } else {
            assert(t.filter(pred) == rest.filter(pred));
            assert(rogue_labels(t) == prev);
        }
        assert forall|s: Seq<char>| #[trigger]
            rogue_labels(t).contains(s) <==> exists|i: int|
                0 <= i < t.len() && is_blacklisted(t[i].0) && s == label_of(#[trigger] t[i]) by {
            if rogue_labels(t).contains(s) {
                if prev.contains(s) {
                    let j = choose|j: int|
                        0 <= j < rest.len() && is_blacklisted(rest[j].0) && s == label_of(
                            #[trigger] rest[j],
                        );
                    assert(t[j] == rest[j]);
                } else {
                    let k = choose|k: int| 0 <= k < rogue_labels(t).len() && rogue_labels(t)[k] == s;
                    if is_blacklisted(x.0) {
                        assert(k == prev.len());
                        assert(t[t.len() - 1] == x);
                    } else {
                        assert(prev[k] == s);
                    }
                }
            }
            if exists|i: int|
                0 <= i < t.len() && is_blacklisted(t[i].0) && s == label_of(#[trigger] t[i]) {
                let i = choose|i: int|
                    0 <= i < t.len() && is_blacklisted(t[i].0) && s == label_of(#[trigger] t[i]);
                if i < t.len() - 1 {
                    assert(rest[i] == t[i]);
                    assert(prev.contains(s));
                    let k = choose|k: int| 0 <= k < prev.len() && prev[k] == s;
                    assert(rogue_labels(t)[k] == s);
                } else {
                    assert(t[i] == x);
                    assert(rogue_labels(t)[prev.len() as int] == s);
                }
            }
        }
        if forall|i: int| 0 <= i < t.len() ==> !is_blacklisted(#[trigger] t[i].0) {
            assert forall|i: int| 0 <= i < rest.len() implies !is_blacklisted(
                #[trigger] rest[i].0,
            ) by {
                assert(rest[i] == t[i]);
            }
            assert(!is_blacklisted(t[t.len() - 1].0));
        }
    } else {
        assert(t.filter(|e: (Seq<char>, u32)| is_blacklisted(e.0)) =~= t);
    }
}

proof fn lemma_rogue_labels_concat(a: Seq<(Seq<char>, u32)>, b: Seq<(Seq<char>, u32)>)
    ensures
        rogue_labels(a + b) == rogue_labels(a) + rogue_labels(b),
{
    let pred = |e: (Seq<char>, u32)| is_blacklisted(e.0);
    let f = |e: (Seq<char>, u32)| label_of(e);
    Seq::filter_distributes_over_add(a, b, pred);
    assert((a.filter(pred) + b.filter(pred)).map_values(f) =~= a.filter(pred).map_values(f)
        + b.filter(pred).map_values(f));
}

/// The order of the process table does not matter: two tables that hold the
/// same rows, each as often, give results that hold the same entries, each
/// as often.
pub proof fn lemma_rogue_labels_order_irrelevant(
    t1: Seq<(Seq<char>, u32)>,
    t2: Seq<(Seq<char>, u32)>,
)
    requires
        t1.to_multiset() == t2.to_multiset(),
    ensures
        rogue_labels(t1).to_multiset() == rogue_labels(t2).to_multiset(),
    decreases t1.len(),
{
    broadcast use vstd::seq_lib::group_to_multiset_ensures;
    broadcast use vstd::multiset::group_multiset_axioms;

    if t1.len() == 0 {
        assert(t1.to_multiset().len() == t1.len());
        assert(t2.to_multiset().len() == t2.len());
        assert(t1 =~= t2);
    } else {
        let rest1 = t1.drop_last();
        let x = t1.last();
        assert(t1 =~= rest1.push(x));
        assert(t1.to_multiset().count(x) > 0);
        assert(t2.to_multiset().contains(x));
        assert(t2.contains(x));
        let k = choose|k: int| 0 <= k < t2.len() && t2[k] == x;
        let rest2 = t2.remove(k);
        assert(rest2.to_multiset() == t2.to_multiset().remove(x));
        assert(rest1.to_multiset() =~= t2.to_multiset().remove(x));
        lemma_rogue_labels_order_irrelevant(rest1, rest2);
        let one = seq![x];
        let head = t2.subrange(0, k);
        let tail = t2.subrange(k + 1, t2.len() as int);
        assert(t1 =~= rest1 + one);
        assert(t2 =~= head + one + tail);
        assert(rest2 =~= head + tail);
        lemma_rogue_labels_concat(rest1, one);
        lemma_rogue_labels_concat(head + one, tail);
        lemma_rogue_labels_concat(head, one);
        lemma_rogue_labels_concat(head, tail);
        let r1 = rogue_labels(rest1);
        let rh = rogue_labels(head);
        let ro = rogue_labels(one);
        let rt = rogue_labels(tail);
        vstd::seq_lib::lemma_multiset_commutative(r1, ro);
        vstd::seq_lib::lemma_multiset_commutative(rh + ro, rt);
        vstd::seq_lib::lemma_multiset_commutative(rh, ro);
        vstd::seq_lib::lemma_multiset_commutative(rh, rt);
        assert(rogue_labels(t1).to_multiset() =~= rogue_labels(t2).to_multiset());
    }
}

} // verus!
