//! Bracket nesting and the search for a bracket's partner.
use vstd::prelude::*;

verus! {

/// How a character changes the nesting depth: `[` opens, `]` closes.
pub open spec fn delta(c: char) -> int {
    if c == '[' {
        1
    } else if c == ']' {
        -1
    } else {
        0
    }
}

/// Opening brackets minus closing brackets in `code[lo..hi]`.
pub open spec fn net(code: Seq<char>, lo: int, hi: int) -> int
    decreases hi - lo,
{
    if hi <= lo {
        0
    } else {
        net(code, lo, hi - 1) + delta(code[hi - 1])
    }
}

/// `k` holds the `]` that closes the `[` at `open`: the first position after
/// `open` at which the nesting opened there returns to zero.
pub open spec fn closes_fwd(code: Seq<char>, open: int, k: int) -> bool {
    &&& open < k < code.len()
    &&& net(code, open, k + 1) == 0
    &&& forall|m: int| open < m <= k ==> net(code, open, m) > 0
}

/// `k` holds the `[` that opens the `]` at `close`: the first position before
/// `close` at which the nesting closed there returns to zero.
pub open spec fn opens_bwd(code: Seq<char>, close: int, k: int) -> bool {
    &&& 0 <= k < close
    &&& net(code, k, close + 1) == 0
    &&& forall|m: int| k < m < close ==> #[trigger] net(code, m, close + 1) < 0
}

/// Every prefix closes no more brackets than it opens, and the whole text
/// closes all that it opens.
pub open spec fn balanced(code: Seq<char>) -> bool {
    &&& forall|k: int| 0 <= k <= code.len() ==> net(code, 0, k) >= 0
    &&& net(code, 0, code.len() as int) == 0
}

/// The depth of a range can be counted from its front as well as its back.
pub proof fn lemma_net_front(code: Seq<char>, lo: int, hi: int)
    requires
        0 <= lo < hi <= code.len(),
    ensures
        net(code, lo, hi) == delta(code[lo]) + net(code, lo + 1, hi),
    decreases hi - lo,
{
    if hi - 1 > lo {
        lemma_net_front(code, lo, hi - 1);
        assert(net(code, lo + 1, hi) == net(code, lo + 1, hi - 1) + delta(code[hi - 1]));
    } else {
        assert(net(code, lo + 1, hi) == 0);
        assert(net(code, lo, hi) == net(code, lo, lo) + delta(code[lo]));
    }
}

/// A `[` has at most one partner.
pub proof fn lemma_closes_fwd_unique(code: Seq<char>, open: int, a: int, b: int)
    requires
        closes_fwd(code, open, a),
        closes_fwd(code, open, b),
    ensures
        a == b,
{
    if a < b {
        assert(net(code, open, a + 1) > 0);
    } else if b < a {
        assert(net(code, open, b + 1) > 0);
    }
}

/// A `]` has at most one partner.
pub proof fn lemma_opens_bwd_unique(code: Seq<char>, close: int, a: int, b: int)
    requires
        opens_bwd(code, close, a),
        opens_bwd(code, close, b),
    ensures
        a == b,
{
    if a < b {
        assert(net(code, b, close + 1) < 0);
    } else if b < a {
        assert(net(code, a, close + 1) < 0);
    }
}

/// Scans forward from the `[` at `pc` for its partner, counting the depth of
/// nesting, and never reads past the end of `code`.
pub fn jump_fwd(code: &Vec<char>, pc: usize) -> (r: Option<usize>)
    requires
        pc < code@.len(),
        code@[pc as int] == '[',
    ensures
        r matches Some(k) ==> closes_fwd(code@, pc as int, k as int),
        r is None ==> !exists|k: int| closes_fwd(code@, pc as int, k),
{
    let ghost c = code@;
    let mut depth: usize = 1;
    let mut k: usize = pc;
    assert(net(c, pc as int, pc + 1) == net(c, pc as int, pc as int) + delta(c[pc as int]));
    while depth > 0 && k < code.len() - 1
        invariant
            c == code@,
            pc <= k < c.len(),
            depth as int == net(c, pc as int, k + 1),
            depth <= k - pc + 1,
            forall|m: int| pc < m <= k ==> net(c, pc as int, m) > 0,
        decreases c.len() - k,
    {
        k += 1;
        if code[k] == '[' {
            depth += 1;
        } else if code[k] == ']' {
            depth -= 1;
        }
    }
    if depth == 0 {
        Some(k)
    } else {
        assert forall|j: int| !closes_fwd(c, pc as int, j) by {
            if closes_fwd(c, pc as int, j) && j < k {
                assert(net(c, pc as int, j + 1) > 0);
            }
        }
        None
    }
}

/// Scans backward from the `]` at `pc` for its partner, counting the depth
/// of nesting, and never reads before the start of `code`.
pub fn jump_bwd(code: &Vec<char>, pc: usize) -> (r: Option<usize>)
    requires
        pc < code@.len(),
        code@[pc as int] == ']',
    ensures
        r matches Some(k) ==> opens_bwd(code@, pc as int, k as int),
        r is None ==> !exists|k: int| opens_bwd(code@, pc as int, k),
{
    let ghost c = code@;
    let mut depth: usize = 1;
    let mut k: usize = pc;
    assert(net(c, pc as int, pc + 1) == net(c, pc as int, pc as int) + delta(c[pc as int]));
    let n = code.len();
    while depth > 0 && k > 0
        invariant
            c == code@,
            n == c.len(),
            k <= pc < c.len(),
            depth as int == -net(c, k as int, pc + 1),
            depth <= pc - k + 1,
            forall|m: int| k < m < pc ==> #[trigger] net(c, m, pc + 1) < 0,
        decreases k,
    {
        proof {
            lemma_net_front(c, k - 1, pc + 1);
        }
        k -= 1;
        if code[k] == ']' {
            depth += 1;
        } else if code[k] == '[' {
            depth -= 1;
        }
    }
    if depth == 0 {
        Some(k)
    } else {
        assert forall|j: int| !opens_bwd(c, pc as int, j) by {
            if opens_bwd(c, pc as int, j) && j > k {
                assert(net(c, j, pc + 1) < 0);
            }
        }
        None
    }
}

/// Whether every bracket of `code` has a partner.
pub fn check_balanced(code: &Vec<char>) -> (r: bool)
    ensures
        r == balanced(code@),
{
    let ghost c = code@;
    let mut depth: usize = 0;
    let mut i: usize = 0;
    while i < code.len()
        invariant
            c == code@,
            i <= c.len(),
            depth as int == net(c, 0, i as int),
            depth <= i,
            forall|k: int| 0 <= k <= i ==> net(c, 0, k) >= 0,
        decreases c.len() - i,
    {
        if code[i] == '[' {
            depth += 1;
        } else if code[i] == ']' {
            if depth == 0 {
                assert(net(c, 0, i + 1) < 0);
                return false;
            }
            depth -= 1;
        }
        i += 1;
    }
    depth == 0
}

} // verus!
