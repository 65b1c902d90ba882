use vstd::arithmetic::div_mod::lemma_fundamental_div_mod;
use vstd::prelude::*;

verus! {

/// Size of every chunk but possibly the last: `ceil(n / k)`.
pub open spec fn chunk_len(n: nat, k: nat) -> nat {
    if k == 0 {
        0
    } else {
        ((n + k - 1) / k as int) as nat
    }
}

/// `s` cut into consecutive pieces of `c` elements, the last one possibly shorter.
pub open spec fn chunks_of<A>(s: Seq<A>, c: nat) -> Seq<Seq<A>>
    decreases s.len(),
{
    if s.len() == 0 || c == 0 {
        Seq::empty()
    } else if s.len() <= c {
        seq![s]
    } else {
        seq![s.take(c as int)] + chunks_of(s.skip(c as int), c)
    }
}

/// The chunks handed to `k` workers.
pub open spec fn partition_spec<A>(s: Seq<A>, k: nat) -> Seq<Seq<A>> {
    chunks_of(s, chunk_len(s.len(), k))
}

proof fn lemma_chunk_len_covers(n: nat, k: nat)
    requires
        k >= 1,
    ensures
        chunk_len(n, k) * k >= n,
        n > 0 ==> chunk_len(n, k) >= 1,
{
    lemma_fundamental_div_mod((n + k - 1) as int, k as int);
    let q = (n + k - 1) / k as int;
    let r = (n + k - 1) % k as int;
    assert(0 <= r < k);
    assert(q * k >= n) by (nonlinear_arith)
        requires
            n + k - 1 == k * q + r,
            r < k,
    ;
    assert(n > 0 ==> q >= 1) by (nonlinear_arith)
        requires
            n + k - 1 == k * q + r,
            r < k,
            k >= 1,
            r >= 0,
    ;
}

proof fn lemma_chunks_flatten<A>(s: Seq<A>, c: nat)
    requires
        c >= 1,
    ensures
        chunks_of(s, c).flatten() == s,
    decreases s.len(),
{
    if s.len() == 0 {
    } else if s.len() <= c {
        seq![s].lemma_flatten_one_element();
    } else {
        lemma_chunks_flatten(s.skip(c as int), c);
        let rest = chunks_of(s.skip(c as int), c);
        let all = seq![s.take(c as int)] + rest;
        assert(all.drop_first() =~= rest);
        assert(s.take(c as int) + s.skip(c as int) =~= s);
    }
}

proof fn lemma_chunks_count<A>(s: Seq<A>, c: nat, m: nat)
    requires
        c >= 1,
        s.len() <= c * m,
    ensures
        chunks_of(s, c).len() <= m,
    decreases s.len(),
{
    if s.len() == 0 {
    } else if s.len() <= c {
        assert(m >= 1) by (nonlinear_arith)
            requires
                s.len() <= c * m,
                s.len() > 0,
        ;
    } else {
        assert(m >= 1 && s.len() - c <= c * (m - 1)) by (nonlinear_arith)
            requires
                s.len() <= c * m,
                s.len() > c,
        ;
        lemma_chunks_count(s.skip(c as int), c, (m - 1) as nat);
    }
}

/// The chunks of a partition, concatenated in order, give back the wordlist,
/// and there are never more chunks than workers.
pub proof fn lemma_partition_coverage<A>(s: Seq<A>, k: nat)
    requires
        k >= 1,
    ensures
        partition_spec(s, k).flatten() == s,
        partition_spec(s, k).len() <= k,
{
    let c = chunk_len(s.len(), k);
    lemma_chunk_len_covers(s.len(), k);
    if s.len() > 0 {
        lemma_chunks_flatten(s, c);
        assert(s.len() <= c * k) by (nonlinear_arith)
            requires
                c * k >= s.len(),
        ;
        lemma_chunks_count(s, c, k);
    }
}

/// Splits `words` into at most `worker_count` consecutive chunks of
/// `ceil(len / worker_count)` words each, the last one possibly shorter.
pub fn partition(words: &Vec<String>, worker_count: usize) -> (r: Vec<Vec<String>>)
    requires
        worker_count >= 1,
    ensures
        r.deep_view() == partition_spec(words.deep_view(), worker_count as nat),
{
    let n = words.len();
    let q = n / worker_count;
    proof {
        lemma_fundamental_div_mod(n as int, worker_count as int);
        assert(n % worker_count != 0 ==> q < n) by (nonlinear_arith)
            requires
                n == worker_count * q + (n % worker_count),
                worker_count >= 1,
        ;
    }
    let c: usize = if n % worker_count == 0 { q } else { q + 1 };
    let ghost s = words.deep_view();
    proof {
        lemma_chunk_len_covers(n as nat, worker_count as nat);
        if n > 0 {
            let nn = n as int;
            let k = worker_count as int;
            lemma_fundamental_div_mod(nn, k);
            lemma_fundamental_div_mod(nn + k - 1, k);
            let q1 = nn / k;
            let r1 = nn % k;
            let q2 = (nn + k - 1) / k;
            let r2 = (nn + k - 1) % k;
            assert(q2 == q1 + if r1 == 0 { 0int } else { 1int }) by (nonlinear_arith)
                requires
                    nn == k * q1 + r1,
                    0 <= r1 < k,
                    nn + k - 1 == k * q2 + r2,
                    0 <= r2 < k,
            ;
        }
        assert(s.skip(0) =~= s);
    }
    let mut r: Vec<Vec<String>> = Vec::new();
    let mut i: usize = 0;
    while i < n
        invariant
            n == words.len(),
            s == words.deep_view(),
            i <= n,
            n > 0 ==> c >= 1,
            n > 0 ==> c == chunk_len(s.len(), worker_count as nat),
            r.deep_view() + chunks_of(s.skip(i as int), c as nat) == partition_spec(s, worker_count as nat),
        decreases n - i,
    {
        let end: usize = if n - i > c { i + c } else { n };
        let mut chunk: Vec<String> = Vec::new();
        let mut j: usize = i;
        while j < end
            invariant
                n == words.len(),
                s == words.deep_view(),
                i <= j <= end <= n,
                chunk.deep_view() == s.subrange(i as int, j as int),
            decreases end - j,
        {
            let w = words[j].clone();
            let ghost old_chunk = chunk.deep_view();
            chunk.push(w);
            proof {
                assert(chunk.deep_view() =~= old_chunk.push(s[j as int]));
                assert(chunk.deep_view() =~= s.subrange(i as int, j + 1));
            }
            j = j + 1;
        }
        proof {
            let rest = s.skip(i as int);
            assert(chunk.deep_view() =~= rest.take((end - i) as int));
            if rest.len() > c {
                assert(rest.skip(c as int) =~= s.skip(end as int));
            }
            if rest.len() <= c {
                assert(rest.take((end - i) as int) =~= rest);
            }
            assert(r.deep_view().push(chunk.deep_view()) =~= r.deep_view() + seq![chunk.deep_view()]);
        }
        let ghost old_r = r.deep_view();
        r.push(chunk);
        proof {
            assert(r.deep_view() =~= old_r.push(s.subrange(i as int, end as int)));
            assert(old_r.push(s.subrange(i as int, end as int)) + chunks_of(s.skip(end as int), c as nat)
                =~= old_r + chunks_of(s.skip(i as int), c as nat));
        }
        i = end;
    }
    proof {
        assert(chunks_of(s.skip(n as int), c as nat) =~= Seq::<Seq<Seq<char>>>::empty());
        assert(r.deep_view() + Seq::<Seq<Seq<char>>>::empty() =~= r.deep_view());
    }
    r
}

} // verus!
