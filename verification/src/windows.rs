//! Window labels: session windows are `session-<n>` in opening order, and the webviews inside a
//! window are named after it.
use vstd::prelude::*;

use crate::text::{chars_of, decimal, decimal_string, eq_lit, parse_u64, unsigned_value};

verus! {

/// The label of the `n`-th session window.
pub open spec fn window_label_of(n: nat) -> Seq<char> {
    "session-"@ + decimal(n)
}

/// Tauri label of the `n`th session window.
pub fn window_label(n: u64) -> (r: String)
    ensures
        r@ == window_label_of(n as nat),
{
    let d = decimal_string(n);
    String::from_str("session-").concat(d.as_str())
}

/// Label of session window `window`'s title-bar webview.
pub open spec fn titlebar_label_of(window: Seq<char>) -> Seq<char> {
    window + "-titlebar"@
}

/// Label of session window `window`'s title-bar webview. It starts with the window's label, so
/// the `session-*` capability covers it.
pub fn titlebar_label(window: &str) -> (r: String)
    ensures
        r@ == titlebar_label_of(window@),
{
    String::from_str(window).concat("-titlebar")
}

/// The opening number of a session window label: the number after `session-`, or `u64::MAX`
/// for any other label (which therefore sorts last).
pub open spec fn window_number_of(label: Seq<char>) -> u64 {
    if label.len() >= 8 && label.subrange(0, 8) == "session-"@ {
        match unsigned_value(label.subrange(8, label.len() as int)) {
            Some(v) => if v <= u64::MAX { v as u64 } else { u64::MAX },
            None => u64::MAX,
        }
    } else {
        u64::MAX
    }
}

/// The opening number of a session window label (`session-<n>`).
pub fn window_number(label: &str) -> (r: u64)
    ensures
        r == window_number_of(label@),
{
    let cs = chars_of(label);
    if cs.len() < 8 || !eq_lit(&cs, 0, 8, "session-") {
        return u64::MAX;
    }
    match parse_u64(&cs, 8, cs.len()) {
        Some(v) => v,
        None => u64::MAX,
    }
}

/// `sorted` with `label` placed after every label whose number is not larger than its own.
pub open spec fn insert_by_number(sorted: Seq<String>, label: String) -> Seq<String>
    decreases sorted.len(),
{
    if sorted.len() == 0 {
        seq![label]
    } else if window_number_of(label@) < window_number_of(sorted.last()@) {
        insert_by_number(sorted.drop_last(), label).push(sorted.last())
    } else {
        sorted.push(label)
    }
}

/// `labels` ordered by opening number; labels with equal numbers keep their relative order.
pub open spec fn sort_by_number(labels: Seq<String>) -> Seq<String>
    decreases labels.len(),
{
    if labels.len() == 0 {
        Seq::empty()
    } else {
        insert_by_number(sort_by_number(labels.drop_last()), labels.last())
    }
}

/// Whether the labels' opening numbers never decrease along `s`.
pub open spec fn numbers_ascend(s: Seq<String>) -> bool {
    forall|i: int, j: int|
        0 <= i <= j < s.len() ==> window_number_of(#[trigger] s[i]@) <= window_number_of(
            #[trigger] s[j]@,
        )
}

/// The open session windows' labels, in opening order (`open` lists them in any order).
pub fn session_labels(open: &[String]) -> (r: Vec<String>)
    ensures
        r@ == sort_by_number(open@),
{
    let mut out: Vec<String> = Vec::new();
    let mut keys: Vec<u64> = Vec::new();
    let mut i: usize = 0;
    while i < open.len()
        invariant
            i <= open@.len(),
            out@ == sort_by_number(open@.subrange(0, i as int)),
            keys@.len() == out@.len(),
            forall|k: int| 0 <= k < out@.len() ==> keys@[k] == window_number_of(#[trigger] out@[k]@),
        decreases open@.len() - i,
    {
        let label = open[i].clone();
        let key = window_number(label.as_str());
        let mut p = out.len();
        proof {
            assert(out@.subrange(0, p as int) =~= out@);
            assert(insert_by_number(out@, label) + out@.subrange(p as int, p as int)
                =~= insert_by_number(out@, label));
        }
        while p > 0 && keys[p - 1] > key
            invariant
                p <= out@.len(),
                keys@.len() == out@.len(),
                forall|k: int| 0 <= k < out@.len() ==> keys@[k] == window_number_of(#[trigger] out@[k]@),
                key == window_number_of(label@),
                insert_by_number(out@, label) == insert_by_number(out@.subrange(0, p as int), label)
                    + out@.subrange(p as int, out@.len() as int),
            decreases p,
        {
            proof {
                let pre = out@.subrange(0, p as int);
                assert(pre.drop_last() =~= out@.subrange(0, p - 1));
                assert(out@.subrange(p - 1, out@.len() as int) =~= seq![pre.last()]
                    + out@.subrange(p as int, out@.len() as int));
                assert(insert_by_number(out@.subrange(0, p - 1), label).push(pre.last())
                    + out@.subrange(p as int, out@.len() as int) =~= insert_by_number(
                    out@.subrange(0, p - 1),
                    label,
                ) + out@.subrange(p - 1, out@.len() as int));
            }
            p = p - 1;
        }
        proof {
            let pre = out@.subrange(0, p as int);
            assert(insert_by_number(pre, label) =~= pre.push(label));
            assert(pre.push(label) + out@.subrange(p as int, out@.len() as int) =~= out@.insert(
                p as int,
                label,
            ));
            assert(open@.subrange(0, i + 1).drop_last() =~= open@.subrange(0, i as int));
        }
        let ghost before = out@;
        let ghost keys_before = keys@;
        out.insert(p, label);
        keys.insert(p, key);
        proof {
            assert forall|k: int| 0 <= k < out@.len() implies keys@[k] == window_number_of(
                #[trigger] out@[k]@,
            ) by {
                if k < p {
                    assert(out@[k] == before[k] && keys@[k] == keys_before[k]);
                } else if k > p {
                    assert(out@[k] == before[k - 1] && keys@[k] == keys_before[k - 1]);
                }
            }
        }
        i = i + 1;
    }
    proof {
        assert(open@.subrange(0, open@.len() as int) =~= open@);
    }
    out
}

proof fn lemma_insert_by_number(sorted: Seq<String>, label: String)
    requires
        numbers_ascend(sorted),
    ensures
        numbers_ascend(insert_by_number(sorted, label)),
        insert_by_number(sorted, label).to_multiset() =~= sorted.to_multiset().insert(label),
        forall|i: int|
            0 <= i < insert_by_number(sorted, label).len() ==> #[trigger] insert_by_number(
                sorted,
                label,
            )[i] == label || sorted.contains(insert_by_number(sorted, label)[i]),
    decreases sorted.len(),
{
    broadcast use vstd::seq_lib::group_to_multiset_ensures;

    let r = insert_by_number(sorted, label);
    if sorted.len() == 0 {
        assert(seq![label] =~= Seq::<String>::empty().push(label));
    } else if window_number_of(label@) < window_number_of(sorted.last()@) {
        let rest = sorted.drop_last();
        let last = sorted.last();
        assert forall|i: int, j: int| 0 <= i <= j < rest.len() implies window_number_of(
            #[trigger] rest[i]@,
        ) <= window_number_of(#[trigger] rest[j]@) by {
            assert(rest[i] == sorted[i] && rest[j] == sorted[j]);
        }
        lemma_insert_by_number(rest, label);
        let inner = insert_by_number(rest, label);
        assert forall|k: int| 0 <= k < inner.len() implies window_number_of(#[trigger] inner[k]@)
            <= window_number_of(last@) by {
            if inner[k] != label {
                let j = choose|j: int| 0 <= j < rest.len() && rest[j] == inner[k];
                assert(sorted[j] == rest[j]);
                assert(sorted[sorted.len() - 1] == last);
            }
        }
        assert forall|i: int, j: int| 0 <= i <= j < r.len() implies window_number_of(
            #[trigger] r[i]@,
        ) <= window_number_of(#[trigger] r[j]@) by {
            if j == r.len() - 1 {
                if i < j {
                    assert(r[i] == inner[i]);
                }
            } else {
                assert(r[i] == inner[i] && r[j] == inner[j]);
            }
        }
        assert(sorted =~= rest.push(last));
        assert forall|i: int| 0 <= i < r.len() implies #[trigger] r[i] == label || sorted.contains(
            r[i],
        ) by {
            if i == r.len() - 1 {
                assert(sorted[sorted.len() - 1] == last);
            } else {
                assert(r[i] == inner[i]);
                if inner[i] != label {
                    let j = choose|j: int| 0 <= j < rest.len() && rest[j] == inner[i];
                    assert(sorted[j] == rest[j]);
                }
            }
        }
    } else {
        assert forall|i: int, j: int| 0 <= i <= j < r.len() implies window_number_of(
            #[trigger] r[i]@,
        ) <= window_number_of(#[trigger] r[j]@) by {
            if j == r.len() - 1 && i < j {
                assert(sorted[sorted.len() - 1] == sorted.last());
            }
        }
        assert forall|i: int| 0 <= i < r.len() implies #[trigger] r[i] == label || sorted.contains(
            r[i],
        ) by {
            if i < sorted.len() {
                assert(r[i] == sorted[i]);
            }
        }
    }
}

/// The labels come out in ascending opening number, and they are exactly the labels that went
/// in, each as often as it went in.
pub proof fn lemma_session_labels_sorted(labels: Seq<String>)
    ensures
        numbers_ascend(sort_by_number(labels)),
        sort_by_number(labels).to_multiset() =~= labels.to_multiset(),
    decreases labels.len(),
{
    broadcast use vstd::seq_lib::group_to_multiset_ensures;

    if labels.len() > 0 {
        lemma_session_labels_sorted(labels.drop_last());
        lemma_insert_by_number(sort_by_number(labels.drop_last()), labels.last());
        assert(labels =~= labels.drop_last().push(labels.last()));
    }
}

/// The window numbers that `window_label` gives back are read back by `window_number`.
pub proof fn lemma_window_label_number(n: u64)
    ensures
        window_number_of(window_label_of(n as nat)) == n,
{
    reveal_strlit("session-");
    let l = window_label_of(n as nat);
    assert(l.subrange(0, 8) =~= "session-"@);
    assert(l.subrange(8, l.len() as int) =~= decimal(n as nat));
    crate::text::lemma_decimal(n as nat);
}

} // verus!
