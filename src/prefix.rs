use vstd::prelude::*;
use vstd::std_specs::iter::IteratorSpec;
use vstd::string::StrSliceExecFns;

verus! {

/// The characters of `s`, in order.
fn chars_of(s: &str) -> (r: Vec<char>)
    ensures
        r@ == s@,
{
    broadcast use vstd::string::axiom_spec_iter, vstd::string::next_postcondition;

    let mut v: Vec<char> = Vec::new();
    let mut it = s.chars();
    loop
        invariant
            it.obeys_prophetic_iter_laws(),
            it.decrease() is Some,
            v@ + it.remaining() == s@,
        decreases it.decrease()->0,
    {
        let ghost before = it.remaining();
        match it.next() {
            Some(c) => {
                v.push(c);
                assert(v@ + it.remaining() =~= s@) by {
                    assert(before =~= seq![c] + it.remaining());
                }
            },
            None => {
                assert(v@ =~= s@);
                return v;
            },
        }
    }
}

/// The characters of each string.
pub open spec fn char_seqs(ss: Seq<&str>) -> Seq<Seq<char>> {
    ss.map_values(|s: &str| s@)
}

/// The strings agree on their first `n` characters.
pub open spec fn agree_upto(ss: Seq<Seq<char>>, n: int) -> bool {
    forall|i: int, k: int| 0 <= i < ss.len() && 0 <= k < n ==> k < ss[i].len() && #[trigger] ss[i][k] == ss[0][k]
}

/// `p` begins every one of `ss`.
pub open spec fn is_common_prefix(p: Seq<char>, ss: Seq<&str>) -> bool {
    forall|i: int| 0 <= i < ss.len() ==> p.is_prefix_of(#[trigger] char_seqs(ss)[i])
}

/// The longest string that begins every one of `strs`; empty when `strs` is.
pub fn longest_common_prefix(strs: Vec<&str>) -> (r: String)
    ensures
        strs@.len() == 0 ==> r@ == Seq::<char>::empty(),
        strs@.len() > 0 ==> is_common_prefix(r@, strs@),
        forall|q: Seq<char>| is_common_prefix(q, strs@) && strs@.len() > 0 ==> q.len() <= r@.len(),
{
    if strs.len() == 0 {
        return String::new();
    }
    let ghost ss = char_seqs(strs@);
    let mut cs: Vec<Vec<char>> = Vec::new();
    let mut i: usize = 0;
    while i < strs.len()
        invariant
            ss == char_seqs(strs@),
            i <= strs@.len(),
            cs@.len() == i,
            forall|j: int| 0 <= j < i ==> #[trigger] cs@[j]@ == ss[j],
        decreases strs@.len() - i,
    {
        cs.push(chars_of(strs[i]));
        i = i + 1;
    }
    let first: &str = strs[0];
    let first_len: usize = cs[0].len();
    let mut n: usize = 0;
    let mut done: bool = false;
    while !done && n < first_len
        invariant
            ss == char_seqs(strs@),
            ss.len() > 0,
            cs@.len() == ss.len(),
            forall|m: int| 0 <= m < ss.len() ==> #[trigger] cs@[m]@ == ss[m],
            first@ == ss[0],
            first_len == ss[0].len(),
            n <= first_len,
            agree_upto(ss, n as int),
            done ==> exists|i: int|
                #![trigger ss[i]]
                0 <= i < ss.len() && (n >= ss[i].len() || ss[i][n as int] != ss[0][n as int]),
        decreases first_len - n + (if done { 0int } else { 1int }),
    {
        let c = cs[0][n];
        let mut j: usize = 1;
        let mut all: bool = true;
        while all && j < strs.len()
            invariant
                ss == char_seqs(strs@),
                ss.len() > 0,
                cs@.len() == ss.len(),
                forall|m: int| 0 <= m < ss.len() ==> #[trigger] cs@[m]@ == ss[m],
                n < ss[0].len(),
                c == ss[0][n as int],
                1 <= j <= ss.len(),
                agree_upto(ss, n as int),
                forall|i: int| #![trigger ss[i]] 0 <= i < j ==> n < ss[i].len() && ss[i][n as int] == c,
                !all ==> j < ss.len() && (n >= ss[j as int].len() || ss[j as int][n as int] != c),
            decreases ss.len() - j + (if all { 1int } else { 0int }),
        {
            let s: &Vec<char> = &cs[j];
            assert(s@ == ss[j as int]);
            if n >= s.len() || s[n] != c {
                all = false;
            } else {
                j = j + 1;
            }
        }
        if all {
            assert forall|i: int, k: int|
                0 <= i < ss.len() && 0 <= k < n + 1 implies k < ss[i].len() && #[trigger] ss[i][k]
                == ss[0][k] by {
                if k == n {
                    assert(ss[i][n as int] == c);
                } else {
                    assert(ss[i][k] == ss[0][k]);
                }
            }
            n = n + 1;
        } else {
            assert(n >= ss[j as int].len() || ss[j as int][n as int] != ss[0][n as int]);
            done = true;
        }
    }
    let r = first.substring_char(0, n).to_owned();
    assert forall|i: int| 0 <= i < strs@.len() implies r@.is_prefix_of(#[trigger] char_seqs(strs@)[i]) by {
        if n > 0 {
            assert(ss[i][n - 1] == ss[0][n - 1]);
        }
        assert forall|k: int| 0 <= k < r@.len() implies r@[k] == ss[i][k] by {
            assert(ss[i][k] == ss[0][k]);
        }
    }
    assert forall|q: Seq<char>| is_common_prefix(q, strs@) implies q.len() <= r@.len() by {
        if q.len() > n {
            assert(q.is_prefix_of(ss[0]));
            let i = choose|i: int|
                #![trigger ss[i]]
                0 <= i < ss.len() && (n >= ss[i].len() || ss[i][n as int] != ss[0][n as int]);
            assert(q.is_prefix_of(ss[i]));
            assert(q[n as int] == ss[0][n as int]);
        }
    }
    r
}

} // verus!
