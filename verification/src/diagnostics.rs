//! Rotation of the dated diagnostics logs: the name of a day's log file, which
//! directory entries are such logs, and which of them to delete so that about
//! a week of them remains.
use vstd::prelude::*;

use crate::text::chars_of;

verus! {

broadcast use {vstd::string::group_string_axioms, vstd::seq_lib::group_to_multiset_ensures};

/// How many daily log files are kept, today's included.
pub const MAX_LOG_FILES: usize = 7;

/// The file name of the log for `date`: `win-toolkit-<date>.log`.
pub open spec fn log_name_of(date: Seq<char>) -> Seq<char> {
    "win-toolkit-"@ + date + ".log"@
}

/// Whether `ext` is `log`, ignoring ASCII case.
pub open spec fn is_log_extension(ext: Seq<char>) -> bool {
    &&& ext.len() == 3
    &&& (ext[0] == 'l' || ext[0] == 'L')
    &&& (ext[1] == 'o' || ext[1] == 'O')
    &&& (ext[2] == 'g' || ext[2] == 'G')
}

/// Whether a directory entry named `name` is one of the dated logs: it starts
/// with `win-toolkit-` and its extension (the text after its last dot) is
/// `log` in any ASCII case, that is, it ends with a dot and such an extension.
pub open spec fn is_log_name(name: Seq<char>) -> bool {
    &&& name.len() >= 12
    &&& name.take(12) == "win-toolkit-"@
    &&& name.len() >= 4
    &&& name[name.len() - 4] == '.'
    &&& is_log_extension(name.subrange(name.len() - 3, name.len() as int))
}

/// The dated logs among `names`, in order.
pub open spec fn log_names(names: Seq<Seq<char>>) -> Seq<Seq<char>>
    decreases names.len(),
{
    if names.len() == 0 {
        Seq::empty()
    } else if is_log_name(names.last()) {
        log_names(names.drop_last()).push(names.last())
    } else {
        log_names(names.drop_last())
    }
}

/// Lexicographic order of file names by character: dated names sort
/// chronologically.
pub open spec fn lex_le(a: Seq<char>, b: Seq<char>) -> bool
    decreases a.len(),
{
    if a.len() == 0 {
        true
    } else if b.len() == 0 {
        false
    } else if a[0] as u32 != b[0] as u32 {
        (a[0] as u32) < (b[0] as u32)
    } else {
        lex_le(a.drop_first(), b.drop_first())
    }
}

/// Whether `s` is in ascending order.
pub open spec fn is_sorted(s: Seq<Seq<char>>) -> bool {
    forall|i: int, j: int| 0 <= i < j < s.len() ==> lex_le(#[trigger] s[i], #[trigger] s[j])
}

/// How many of the `count` existing logs to delete before today's is added.
pub open spec fn excess_of(count: nat) -> nat {
    if count < MAX_LOG_FILES {
        0
    } else {
        (count + 1 - MAX_LOG_FILES) as nat
    }
}

proof fn lemma_lex_le_reflexive(a: Seq<char>)
    ensures
        lex_le(a, a),
    decreases a.len(),
{
    if a.len() > 0 {
        lemma_lex_le_reflexive(a.drop_first());
    }
}

proof fn lemma_lex_le_total(a: Seq<char>, b: Seq<char>)
    ensures
        lex_le(a, b) || lex_le(b, a),
    decreases a.len(),
{
    if a.len() > 0 && b.len() > 0 && a[0] as u32 == b[0] as u32 {
        lemma_lex_le_total(a.drop_first(), b.drop_first());
    }
}

proof fn lemma_lex_le_transitive(a: Seq<char>, b: Seq<char>, c: Seq<char>)
    requires
        lex_le(a, b),
        lex_le(b, c),
    ensures
        lex_le(a, c),
    decreases a.len(),
{
    if a.len() > 0 && b.len() > 0 && c.len() > 0 && a[0] as u32 == b[0] as u32 && b[0] as u32
        == c[0] as u32 {
        lemma_lex_le_transitive(a.drop_first(), b.drop_first(), c.drop_first());
    }
}

/// The file name of the log for `date`.
pub fn log_file_name(date: &str) -> (name: String)
    ensures
        name@ == log_name_of(date@),
{
    let mut name = String::from_str("win-toolkit-");
    name.append(date);
    name.append(".log");
    name
}

/// Whether a directory entry is one of the dated logs.
pub fn is_log_file_name(name: &str) -> (b: bool)
    ensures
        b == is_log_name(name@),
{
    let cs = chars_of(name);
    let prefix = chars_of("win-toolkit-");
    proof {
        reveal_strlit("win-toolkit-");
    }
    let n = cs.len();
    if n < 12 {
        return false;
    }
    let mut i: usize = 0;
    while i < 12
        invariant
            i <= 12 <= n,
            n == cs@.len(),
            cs@ == name@,
            prefix@ == "win-toolkit-"@,
            prefix@.len() == 12,
            forall|j: int| 0 <= j < i ==> cs@[j] == prefix@[j],
        decreases 12 - i,
    {
        if cs[i] != prefix[i] {
            assert(name@.take(12)[i as int] != "win-toolkit-"@[i as int]);
            return false;
        }
        i += 1;
    }
    assert(name@.take(12) =~= "win-toolkit-"@);
    let ext_ok = (cs[n - 3] == 'l' || cs[n - 3] == 'L') && (cs[n - 2] == 'o' || cs[n - 2] == 'O') && (
    cs[n - 1] == 'g' || cs[n - 1] == 'G');
    let ghost ext = name@.subrange(n - 3, n as int);
    assert(ext[0] == cs@[n - 3] && ext[1] == cs@[n - 2] && ext[2] == cs@[n - 1]);
    cs[n - 4] == '.' && ext_ok
}

/// Whether `a` sorts before or equal to `b`.
fn name_le(a: &String, b: &String) -> (r: bool)
    ensures
        r == lex_le(a@, b@),
{
    let x = chars_of(a.as_str());
    let y = chars_of(b.as_str());
    let mut i: usize = 0;
    assert(x@.skip(0) =~= x@);
    assert(y@.skip(0) =~= y@);
    while i < x.len() && i < y.len() && (x[i] as u32) == (y[i] as u32)
        invariant
            i <= x@.len(),
            i <= y@.len(),
            lex_le(a@, b@) == lex_le(x@.skip(i as int), y@.skip(i as int)),
            x@ == a@,
            y@ == b@,
        decreases x.len() - i,
    {
        assert(x@.skip(i as int).drop_first() =~= x@.skip(i + 1));
        assert(y@.skip(i as int).drop_first() =~= y@.skip(i + 1));
        i += 1;
    }
    if i == x.len() {
        return true;
    }
    if i == y.len() {
        return false;
    }
    assert(x@.skip(i as int)[0] == x@[i as int]);
    assert(y@.skip(i as int)[0] == y@[i as int]);
    (x[i] as u32) < (y[i] as u32)
}

/// The index of a smallest name among `names`.
fn index_of_min(names: &Vec<String>) -> (k: usize)
    requires
        names@.len() > 0,
    ensures
        k < names@.len(),
        forall|j: int| 0 <= j < names@.len() ==> lex_le(names@[k as int]@, #[trigger] names@[j]@),
{
    let mut best: usize = 0;
    let mut i: usize = 1;
    proof {
        lemma_lex_le_reflexive(names@[0]@);
    }
    while i < names.len()
        invariant
            1 <= i <= names@.len(),
            best < i,
            forall|j: int| 0 <= j < i ==> lex_le(names@[best as int]@, #[trigger] names@[j]@),
        decreases names.len() - i,
    {
        if !name_le(&names[best], &names[i]) {
            proof {
                lemma_lex_le_total(names@[best as int]@, names@[i as int]@);
                assert forall|j: int| 0 <= j <= i implies lex_le(
                    names@[i as int]@,
                    #[trigger] names@[j]@,
                ) by {
                    if j < i {
                        lemma_lex_le_transitive(
                            names@[i as int]@,
                            names@[best as int]@,
                            names@[j]@,
                        );
                    } else {
                        lemma_lex_le_reflexive(names@[i as int]@);
                    }
                }
            }
            best = i;
        }
        i += 1;
    }
    best
}

/// The dated logs among `names`, in order.
fn collect_logs(names: &[String]) -> (logs: Vec<String>)
    ensures
        logs.deep_view() == log_names(names.deep_view()),
{
    let ghost all = names.deep_view();
    let mut logs: Vec<String> = Vec::new();
    assert(all.take(0) =~= Seq::<Seq<char>>::empty());
    for i in 0..names.len()
        invariant
            all == names.deep_view(),
            logs.deep_view() == log_names(all.take(i as int)),
    {
        assert(all.take(i + 1).drop_last() =~= all.take(i as int));
        assert(all.take(i + 1).last() == names@[i as int]@);
        if is_log_file_name(names[i].as_str()) {
            let ghost prev = logs.deep_view();
            logs.push(names[i].clone());
            assert(logs.deep_view() =~= prev.push(names@[i as int]@));
        }
    }
    assert(all.take(names@.len() as int) =~= all);
    logs
}

/// The dated logs to delete before today's log is added, so that at most
/// `MAX_LOG_FILES` remain: none while fewer than `MAX_LOG_FILES` exist,
/// otherwise the oldest (by name), enough to leave `MAX_LOG_FILES - 1`. Only
/// dated logs are ever chosen; they come oldest first.
pub fn logs_to_prune(names: &[String]) -> (doomed: Vec<String>)
    ensures
        ({
            let logs = log_names(names.deep_view());
            let gone = doomed.deep_view();
            &&& gone.len() == excess_of(logs.len())
            &&& logs.len() >= MAX_LOG_FILES ==> logs.len() - gone.len() == MAX_LOG_FILES - 1
            &&& logs.len() - gone.len() + 1 <= MAX_LOG_FILES
            &&& gone.to_multiset().subset_of(logs.to_multiset())
            &&& is_sorted(gone)
            &&& forall|x: Seq<char>, y: Seq<char>|
                gone.to_multiset().count(x) > 0 && logs.to_multiset().sub(
                    gone.to_multiset(),
                ).count(y) > 0 ==> lex_le(x, y)
        }),
{
    let ghost logs_v = log_names(names.deep_view());
    let mut rest = collect_logs(names);
    let mut doomed: Vec<String> = Vec::new();
    if rest.len() < MAX_LOG_FILES {
        assert(doomed.deep_view() =~= Seq::<Seq<char>>::empty());
        assert(doomed.deep_view().to_multiset() =~= vstd::multiset::Multiset::empty());
        return doomed;
    }
    let excess = rest.len() - (MAX_LOG_FILES - 1);
    assert(doomed.deep_view() =~= Seq::<Seq<char>>::empty());
    assert(doomed.deep_view().to_multiset().add(rest.deep_view().to_multiset()) =~= logs_v.to_multiset());
    for step in 0..excess
        invariant
            excess == logs_v.len() + 1 - MAX_LOG_FILES,
            excess <= logs_v.len(),
            doomed@.len() == step,
            rest@.len() == logs_v.len() - step,
            doomed.deep_view().to_multiset().add(rest.deep_view().to_multiset())
                == logs_v.to_multiset(),
            is_sorted(doomed.deep_view()),
            forall|i: int, j: int|
                0 <= i < doomed@.len() && 0 <= j < rest@.len() ==> lex_le(
                    #[trigger] doomed@[i]@,
                    #[trigger] rest@[j]@,
                ),
    {
        let k = index_of_min(&rest);
        let ghost rest_before = rest.deep_view();
        let ghost doomed_before = doomed.deep_view();
        let ghost rest_exec = rest@;
        let smallest = rest.remove(k);
        assert(rest.deep_view() =~= rest_before.remove(k as int));
        doomed.push(smallest);
        assert(doomed.deep_view() =~= doomed_before.push(rest_before[k as int]));
        proof {
            assert(rest_before.remove(k as int).to_multiset() =~= rest_before.to_multiset().remove(
                rest_before[k as int],
            ));
            assert(doomed_before.push(rest_before[k as int]).to_multiset() =~= doomed_before.to_multiset().insert(
                rest_before[k as int],
            ));
            assert forall|i: int, j: int|
                0 <= i < j < doomed.deep_view().len() implies lex_le(
                #[trigger] doomed.deep_view()[i],
                #[trigger] doomed.deep_view()[j],
            ) by {
                if j == doomed.deep_view().len() - 1 {
                    assert(doomed.deep_view()[i] == doomed@[i]@);
                    assert(lex_le(doomed@[i]@, rest_exec[k as int]@));
                } else {
                    assert(doomed.deep_view()[i] == doomed_before[i]);
                    assert(doomed.deep_view()[j] == doomed_before[j]);
                }
            }
            assert forall|i: int, j: int|
                0 <= i < doomed@.len() && 0 <= j < rest@.len() implies lex_le(
                #[trigger] doomed@[i]@,
                #[trigger] rest@[j]@,
            ) by {
                let jj = if j < k { j } else { j + 1 };
                assert(rest@[j] == rest_exec[jj]);
                if i < step {
                    assert(doomed@[i]@ == doomed_before[i]);
                } else {
                    assert(lex_le(rest_exec[k as int]@, rest_exec[jj]@));
                }
            }
        }
    }
    proof {
        let gone = doomed.deep_view();
        let left = rest.deep_view();
        assert(gone.to_multiset().add(left.to_multiset()) == logs_v.to_multiset());
        assert(logs_v.to_multiset().sub(gone.to_multiset()) =~= left.to_multiset());
        assert forall|x: Seq<char>, y: Seq<char>|
            gone.to_multiset().count(x) > 0 && logs_v.to_multiset().sub(gone.to_multiset()).count(y)
                > 0 implies lex_le(x, y) by {
            assert(gone.contains(x));
            assert(left.contains(y));
            let i = choose|i: int| 0 <= i < gone.len() && gone[i] == x;
            let j = choose|j: int| 0 <= j < left.len() && left[j] == y;
            assert(doomed@[i]@ == x);
            assert(rest@[j]@ == y);
        }
    }
    doomed
}

} // verus!
