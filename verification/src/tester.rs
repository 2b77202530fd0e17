//! Results of reachability tests and their summary. The network probing itself
//! runs outside the library; here is what is decided from its outcomes.

use crate::generator::{ProxyConfig, ProxyConfigView};
use crate::text::push_str;
use vstd::prelude::*;

verus! {

broadcast use vstd::string::group_string_axioms;

/// The outcome of testing one configuration.
#[derive(Debug, Clone)]
pub struct TestResult {
    pub config: ProxyConfig,
    pub is_working: bool,
    pub response_time_ms: Option<u64>,
    pub error: Option<String>,
}

/// The plain values of a `TestResult`.
pub struct TestResultView {
    pub config: ProxyConfigView,
    pub is_working: bool,
    pub response_time_ms: Option<u64>,
    pub error: Option<Seq<char>>,
}

impl View for TestResult {
    type V = TestResultView;

    open spec fn view(&self) -> TestResultView {
        TestResultView {
            config: self.config@,
            is_working: self.is_working,
            response_time_ms: self.response_time_ms,
            error: match self.error {
                Some(e) => Some(e@),
                None => None,
            },
        }
    }
}

/// What a network probe of one configuration found.
pub enum ProbeOutcome {
    /// The TCP connection and the TLS handshake both succeeded.
    Reachable,
    /// The TCP connection succeeded and the TLS handshake failed with this message.
    TlsFailed(String),
    /// The TCP connection failed with this message.
    TcpFailed(String),
    /// The TCP connection did not complete within the timeout.
    TimedOut,
}

/// The plain values of a `ProbeOutcome`.
pub enum ProbeOutcomeView {
    Reachable,
    TlsFailed(Seq<char>),
    TcpFailed(Seq<char>),
    TimedOut,
}

impl View for ProbeOutcome {
    type V = ProbeOutcomeView;

    open spec fn view(&self) -> ProbeOutcomeView {
        match self {
            ProbeOutcome::Reachable => ProbeOutcomeView::Reachable,
            ProbeOutcome::TlsFailed(e) => ProbeOutcomeView::TlsFailed(e@),
            ProbeOutcome::TcpFailed(e) => ProbeOutcomeView::TcpFailed(e@),
            ProbeOutcome::TimedOut => ProbeOutcomeView::TimedOut,
        }
    }
}

/// The result recorded for a probe outcome: reachable configurations work and carry
/// their response time; a failed handshake keeps the time and its message; a failed
/// connection carries `TCP: ` and its message; a timeout carries `Timeout`.
pub open spec fn result_of(c: ProxyConfigView, outcome: ProbeOutcomeView, elapsed_ms: u64) -> TestResultView {
    match outcome {
        ProbeOutcomeView::Reachable => TestResultView {
            config: c,
            is_working: true,
            response_time_ms: Some(elapsed_ms),
            error: None,
        },
        ProbeOutcomeView::TlsFailed(e) => TestResultView {
            config: c,
            is_working: false,
            response_time_ms: Some(elapsed_ms),
            error: Some(e),
        },
        ProbeOutcomeView::TcpFailed(e) => TestResultView {
            config: c,
            is_working: false,
            response_time_ms: None,
            error: Some("TCP: "@ + e),
        },
        ProbeOutcomeView::TimedOut => TestResultView {
            config: c,
            is_working: false,
            response_time_ms: None,
            error: Some("Timeout"@),
        },
    }
}

/// Tests configurations for reachability, a bounded number at a time.
#[derive(Clone)]
pub struct ConfigTester {
    timeout_secs: u64,
    concurrent: usize,
}

impl ConfigTester {
    /// The seconds a connection attempt may take.
    pub closed spec fn spec_timeout_secs(self) -> u64 {
        self.timeout_secs
    }

    /// How many tests run at once.
    pub closed spec fn spec_concurrent(self) -> usize {
        self.concurrent
    }

    /// A tester with the given timeout and number of tests in flight.
    pub fn new(timeout_secs: u64, concurrent: usize) -> (r: Self)
        ensures
            r.spec_timeout_secs() == timeout_secs,
            r.spec_concurrent() == concurrent,
    {
        Self { timeout_secs, concurrent }
    }

    /// The seconds a connection attempt may take.
    pub fn timeout_secs(&self) -> (r: u64)
        ensures
            r == self.spec_timeout_secs(),
    {
        self.timeout_secs
    }

    /// How many tests run at once.
    pub fn concurrent(&self) -> (r: usize)
        ensures
            r == self.spec_concurrent(),
    {
        self.concurrent
    }

    /// Whether the tests started so far form a batch to wait for: as soon as as many
    /// tests are pending as may run at once.
    pub fn batch_ready(&self, pending: usize) -> (r: bool)
        ensures
            r == (pending >= self.spec_concurrent()),
    {
        pending >= self.concurrent
    }

    /// The result to record for a configuration once its probe has an outcome.
    pub fn test_result(config: ProxyConfig, outcome: ProbeOutcome, elapsed_ms: u64) -> (r:
        TestResult)
        ensures
            r@ == result_of(config@, outcome@, elapsed_ms),
    {
        match outcome {
            ProbeOutcome::Reachable => TestResult {
                config,
                is_working: true,
                response_time_ms: Some(elapsed_ms),
                error: None,
            },
            ProbeOutcome::TlsFailed(e) => TestResult {
                config,
                is_working: false,
                response_time_ms: Some(elapsed_ms),
                error: Some(e),
            },
            ProbeOutcome::TcpFailed(e) => {
                let mut msg = String::from_str("TCP: ");
                push_str(&mut msg, e.as_str());
                TestResult { config, is_working: false, response_time_ms: None, error: Some(msg) }
            },
            ProbeOutcome::TimedOut => TestResult {
                config,
                is_working: false,
                response_time_ms: None,
                error: Some(String::from_str("Timeout")),
            },
        }
    }
}

// ---------------------------------------------------------------------------
// Statistics
// ---------------------------------------------------------------------------

/// Counts and response times over a set of test results. The success rate and the
/// average response time are the ratios `working_configs / total_configs` and
/// `total_response_time_ms / timed_configs`.
#[derive(Debug, Clone)]
pub struct TestStatistics {
    pub total_configs: usize,
    pub working_configs: usize,
    pub failed_configs: usize,
    pub fastest_response_time_ms: Option<u64>,
    pub slowest_response_time_ms: Option<u64>,
    /// Sum of the response times of the working results that have one.
    pub total_response_time_ms: u128,
    /// Number of working results that have a response time.
    pub timed_configs: usize,
}

impl Default for TestStatistics {
    fn default() -> (r: Self)
        ensures
            r.total_configs == 0,
            r.working_configs == 0,
            r.failed_configs == 0,
            r.fastest_response_time_ms is None,
            r.slowest_response_time_ms is None,
            r.total_response_time_ms == 0,
            r.timed_configs == 0,
    {
        TestStatistics {
            total_configs: 0,
            working_configs: 0,
            failed_configs: 0,
            fastest_response_time_ms: None,
            slowest_response_time_ms: None,
            total_response_time_ms: 0,
            timed_configs: 0,
        }
    }
}

/// How many results report a working configuration.
pub open spec fn working_count(rs: Seq<TestResult>) -> nat
    decreases rs.len(),
{
    if rs.len() == 0 {
        0
    } else {
        working_count(rs.drop_last()) + if rs.last().is_working {
            1nat
        } else {
            0nat
        }
    }
}

/// The response times of the working results that have one, in order.
pub open spec fn working_times(rs: Seq<TestResult>) -> Seq<u64>
    decreases rs.len(),
{
    if rs.len() == 0 {
        Seq::empty()
    } else {
        let t = working_times(rs.drop_last());
        if rs.last().is_working && rs.last().response_time_ms is Some {
            t.push(rs.last().response_time_ms->0)
        } else {
            t
        }
    }
}

/// The least value of a sequence, if any.
pub open spec fn seq_min(s: Seq<u64>) -> Option<u64>
    decreases s.len(),
{
    if s.len() == 0 {
        None
    } else {
        match seq_min(s.drop_last()) {
            Some(m) => Some(if s.last() < m {
                s.last()
            } else {
                m
            }),
            None => Some(s.last()),
        }
    }
}

/// The greatest value of a sequence, if any.
pub open spec fn seq_max(s: Seq<u64>) -> Option<u64>
    decreases s.len(),
{
    if s.len() == 0 {
        None
    } else {
        match seq_max(s.drop_last()) {
            Some(m) => Some(if s.last() > m {
                s.last()
            } else {
                m
            }),
            None => Some(s.last()),
        }
    }
}

/// The sum of a sequence.
pub open spec fn seq_sum(s: Seq<u64>) -> nat
    decreases s.len(),
{
    if s.len() == 0 {
        0
    } else {
        seq_sum(s.drop_last()) + (s.last() as nat)
    }
}

/// The statistics of a set of results are exactly their counts, extremes and sums.
pub open spec fn statistics_of(rs: Seq<TestResult>, st: TestStatistics) -> bool {
    &&& st.total_configs == rs.len()
    &&& st.working_configs == working_count(rs)
    &&& st.failed_configs == rs.len() - working_count(rs)
    &&& st.fastest_response_time_ms == seq_min(working_times(rs))
    &&& st.slowest_response_time_ms == seq_max(working_times(rs))
    &&& st.total_response_time_ms == seq_sum(working_times(rs))
    &&& st.timed_configs == working_times(rs).len()
}

proof fn lemma_counts_bounded(rs: Seq<TestResult>)
    ensures
        working_count(rs) <= rs.len(),
        working_times(rs).len() <= working_count(rs),
        seq_sum(working_times(rs)) <= working_times(rs).len() * (u64::MAX as nat),
    decreases rs.len(),
{
    if rs.len() > 0 {
        lemma_counts_bounded(rs.drop_last());
        let t = working_times(rs.drop_last());
        if rs.last().is_working && rs.last().response_time_ms is Some {
            let w = working_times(rs);
            assert(w.drop_last() =~= t);
            assert(seq_sum(w) == seq_sum(t) + w.last());
            assert(w.len() * (u64::MAX as nat) == t.len() * (u64::MAX as nat) + (u64::MAX as nat))
                by (nonlinear_arith)
                requires
                    w.len() == t.len() + 1,
            ;
        }
    }
}

impl TestStatistics {
    /// Summarises a set of test results.
    pub fn from_results(results: &[TestResult]) -> (r: Self)
        ensures
            statistics_of(results@, r),
    {
        let n = results.len();
        let mut working: usize = 0;
        let mut fastest: Option<u64> = None;
        let mut slowest: Option<u64> = None;
        let mut sum: u128 = 0;
        let mut timed: usize = 0;
        let ghost rs = results@;
        for i in 0..n
            invariant
                n == rs.len(),
                rs == results@,
                working as nat == working_count(rs.take(i as int)),
                timed as nat == working_times(rs.take(i as int)).len(),
                fastest == seq_min(working_times(rs.take(i as int))),
                slowest == seq_max(working_times(rs.take(i as int))),
                sum as nat == seq_sum(working_times(rs.take(i as int))),
        {
            let ghost pre = rs.take(i as int);
            proof {
                assert(rs.take(i + 1).drop_last() =~= pre);
                assert(rs.take(i + 1).last() == rs[i as int]);
                lemma_counts_bounded(rs.take(i + 1));
                lemma_counts_bounded(pre);
                assert(working_times(rs.take(i + 1)).len() <= i + 1);
                assert(working_times(pre).len() <= i);
            }
            let r = &results[i];
            if r.is_working {
                working = working + 1;
                match r.response_time_ms {
                    Some(t) => {
                        proof {
                            let w = working_times(rs.take(i + 1));
                            assert(w.drop_last() =~= working_times(pre));
                            assert(w.last() == t);
                            assert(seq_sum(w) <= w.len() * (u64::MAX as nat));
                            assert(w.len() <= n);
                            assert(w.len() * (u64::MAX as nat) <= (usize::MAX as nat) * (
                            u64::MAX as nat)) by (nonlinear_arith)
                                requires
                                    w.len() <= usize::MAX,
                            ;
                            assert((usize::MAX as nat) * (u64::MAX as nat) <= u128::MAX) by (
                            nonlinear_arith)
                                requires
                                    usize::MAX <= u64::MAX,
                            ;
                        }
                        sum = sum + t as u128;
                        timed = timed + 1;
                        fastest = match fastest {
                            Some(m) => Some(
                                if t < m {
                                    t
                                } else {
                                    m
                                },
                            ),
                            None => Some(t),
                        };
                        slowest = match slowest {
                            Some(m) => Some(
                                if t > m {
                                    t
                                } else {
                                    m
                                },
                            ),
                            None => Some(t),
                        };
                    },
                    None => {},
                }
            }
        }
        assert(rs.take(n as int) =~= rs);
        proof {
            lemma_counts_bounded(rs);
        }
        TestStatistics {
            total_configs: n,
            working_configs: working,
            failed_configs: n - working,
            fastest_response_time_ms: fastest,
            slowest_response_time_ms: slowest,
            total_response_time_ms: sum,
            timed_configs: timed,
        }
    }
}

// ---------------------------------------------------------------------------
// Laws
// ---------------------------------------------------------------------------

/// A probe gives a working result exactly when the configuration was reachable; a
/// result carries an error exactly when it is not working; and a response time exactly
/// when a TCP connection was made.
pub proof fn lemma_probe_result(c: ProxyConfigView, outcome: ProbeOutcomeView, elapsed_ms: u64)
    ensures
        result_of(c, outcome, elapsed_ms).is_working <==> outcome is Reachable,
        result_of(c, outcome, elapsed_ms).error is None <==> result_of(
            c,
            outcome,
            elapsed_ms,
        ).is_working,
        result_of(c, outcome, elapsed_ms).response_time_ms is Some <==> (outcome is Reachable
            || outcome is TlsFailed),
        result_of(c, outcome, elapsed_ms).config == c,
{
}

/// The least, greatest and total of a sequence bound each other: the least is at most
/// the greatest, and the total lies between length times least and length times greatest.
pub proof fn lemma_seq_extremes(s: Seq<u64>)
    ensures
        seq_min(s) is Some <==> s.len() > 0,
        seq_max(s) is Some <==> s.len() > 0,
        s.len() > 0 ==> seq_min(s)->0 <= seq_max(s)->0,
        s.len() > 0 ==> (seq_min(s)->0 as nat) * s.len() <= seq_sum(s),
        s.len() > 0 ==> seq_sum(s) <= (seq_max(s)->0 as nat) * s.len(),
    decreases s.len(),
{
    if s.len() > 0 {
        let t = s.drop_last();
        let x = s.last();
        lemma_seq_extremes(t);
        if t.len() > 0 {
            let lo = seq_min(t)->0;
            let hi = seq_max(t)->0;
            let m = seq_min(s)->0;
            let mx = seq_max(s)->0;
            let n = t.len();
            assert(m <= lo && m <= x);
            assert(mx >= hi && mx >= x);
            assert((m as nat) * (n + 1) <= seq_sum(t) + x) by (nonlinear_arith)
                requires
                    m <= lo,
                    m <= x,
                    (lo as nat) * n <= seq_sum(t),
            ;
            assert(seq_sum(t) + x <= (mx as nat) * (n + 1)) by (nonlinear_arith)
                requires
                    mx >= hi,
                    mx >= x,
                    seq_sum(t) <= (hi as nat) * n,
            ;
            assert(s.len() == n + 1);
            assert(seq_sum(s) == seq_sum(t) + x);
        } else {
            assert(seq_sum(t) == 0);
            assert(seq_min(s) == Some(x));
            assert(seq_max(s) == Some(x));
            assert(seq_sum(s) == x as nat);
            assert(s.len() == 1);
        }
    }
}

/// The statistics of any results are consistent: every result is working or failed,
/// only working results are timed, extremes exist exactly when some result is timed,
/// and the average response time lies between the fastest and the slowest.
pub proof fn lemma_statistics_consistent(rs: Seq<TestResult>, st: TestStatistics)
    requires
        statistics_of(rs, st),
    ensures
        st.total_configs == st.working_configs + st.failed_configs,
        st.timed_configs <= st.working_configs,
        st.fastest_response_time_ms is Some <==> st.timed_configs > 0,
        st.slowest_response_time_ms is Some <==> st.timed_configs > 0,
        st.timed_configs > 0 ==> st.fastest_response_time_ms->0 <= st.slowest_response_time_ms->0,
        st.timed_configs > 0 ==> (st.fastest_response_time_ms->0 as nat) * st.timed_configs
            <= st.total_response_time_ms,
        st.timed_configs > 0 ==> st.total_response_time_ms <= (st.slowest_response_time_ms->0 as nat)
            * st.timed_configs,
{
    lemma_counts_bounded(rs);
    lemma_seq_extremes(working_times(rs));
}

/// The lesser of two optional values; `None` counts as no value.
pub open spec fn opt_min(x: Option<u64>, y: Option<u64>) -> Option<u64> {
    match (x, y) {
        (Some(a), Some(b)) => Some(if b < a { b } else { a }),
        (Some(a), None) => Some(a),
        (None, _) => y,
    }
}

/// The greater of two optional values; `None` counts as no value.
pub open spec fn opt_max(x: Option<u64>, y: Option<u64>) -> Option<u64> {
    match (x, y) {
        (Some(a), Some(b)) => Some(if b > a { b } else { a }),
        (Some(a), None) => Some(a),
        (None, _) => y,
    }
}

/// Sum, least and greatest of a concatenation combine those of its parts.
proof fn lemma_u64_concat(x: Seq<u64>, y: Seq<u64>)
    ensures
        seq_sum(x + y) == seq_sum(x) + seq_sum(y),
        seq_min(x + y) == opt_min(seq_min(x), seq_min(y)),
        seq_max(x + y) == opt_max(seq_max(x), seq_max(y)),
    decreases y.len(),
{
    if y.len() == 0 {
        assert(x + y =~= x);
    } else {
        lemma_u64_concat(x, y.drop_last());
        assert((x + y).drop_last() =~= x + y.drop_last());
        assert((x + y).last() == y.last());
    }
}

/// Counts and timed responses of a concatenation are those of its parts, joined.
proof fn lemma_results_concat(x: Seq<TestResult>, y: Seq<TestResult>)
    ensures
        working_count(x + y) == working_count(x) + working_count(y),
        working_times(x + y) == working_times(x) + working_times(y),
    decreases y.len(),
{
    if y.len() == 0 {
        assert(x + y =~= x);
        assert(working_times(x) + working_times(y) =~= working_times(x));
    } else {
        lemma_results_concat(x, y.drop_last());
        assert((x + y).drop_last() =~= x + y.drop_last());
        assert((x + y).last() == y.last());
        if y.last().is_working && y.last().response_time_ms is Some {
            assert(working_times(x) + working_times(y.drop_last()).push(y.last().response_time_ms->0)
                =~= (working_times(x) + working_times(y.drop_last())).push(
                y.last().response_time_ms->0,
            ));
        }
    }
}

/// A sequence is its part before `i`, its element at `i` and its part after `i`, and
/// removing the element leaves the two parts.
proof fn lemma_split_at<A>(b: Seq<A>, i: int)
    requires
        0 <= i < b.len(),
    ensures
        b == b.take(i) + seq![b[i]] + b.skip(i + 1),
        b.remove(i) == b.take(i) + b.skip(i + 1),
{
    assert(b =~= b.take(i) + seq![b[i]] + b.skip(i + 1));
    assert(b.remove(i) =~= b.take(i) + b.skip(i + 1));
}

/// Statistics measures of results do not change when the results are reordered.
proof fn lemma_measures_permutation(a: Seq<TestResult>, b: Seq<TestResult>)
    requires
        a.to_multiset() == b.to_multiset(),
    ensures
        working_count(a) == working_count(b),
        working_times(a).len() == working_times(b).len(),
        seq_sum(working_times(a)) == seq_sum(working_times(b)),
        seq_min(working_times(a)) == seq_min(working_times(b)),
        seq_max(working_times(a)) == seq_max(working_times(b)),
    decreases a.len(),
{
    broadcast use vstd::seq_lib::group_to_multiset_ensures;

    if a.len() == 0 {
        assert(b.to_multiset().len() == 0);
        assert(b.len() == 0);
        assert(a =~= b);
    } else {
        let x = a.last();
        let a0 = a.drop_last();
        assert(a =~= a0.push(x));
        assert(a.to_multiset() =~= a0.to_multiset().insert(x));
        assert(b.to_multiset().count(x) > 0);
        assert(b.contains(x));
        let i = choose|i: int| 0 <= i < b.len() && b[i] == x;
        let b0 = b.remove(i);
        assert(b0.to_multiset() =~= b.to_multiset().remove(x));
        assert(a0.to_multiset() =~= a0.to_multiset().insert(x).remove(x));
        lemma_measures_permutation(a0, b0);
        let one = seq![x];
        lemma_split_at(b, i);
        let l = b.take(i);
        let r = b.skip(i + 1);
        lemma_results_concat(l, one);
        lemma_results_concat(l + one, r);
        lemma_results_concat(l, r);
        lemma_results_concat(a0, one);
        assert(a0 + one =~= a);
        let (wl, wo, wr, wa0) = (working_times(l), working_times(one), working_times(r), working_times(a0));
        lemma_u64_concat(wl, wo);
        lemma_u64_concat(wl + wo, wr);
        lemma_u64_concat(wl, wr);
        lemma_u64_concat(wa0, wo);
    }
}

/// The statistics of a set of results do not depend on the order of the results.
pub proof fn lemma_statistics_permutation(
    rs1: Seq<TestResult>,
    rs2: Seq<TestResult>,
    st: TestStatistics,
)
    requires
        rs1.to_multiset() == rs2.to_multiset(),
        statistics_of(rs1, st),
    ensures
        statistics_of(rs2, st),
{
    broadcast use vstd::seq_lib::group_to_multiset_ensures;

    lemma_measures_permutation(rs1, rs2);
    assert(rs1.len() == rs1.to_multiset().len());
    assert(rs2.len() == rs2.to_multiset().len());
}

/// A result that works and reports a response time.
pub open spec fn timed_working(r: TestResult) -> bool {
    r.is_working && r.response_time_ms is Some
}

/// Every collected response time is that of a working, timed result, and every such
/// result's time is collected.
proof fn lemma_working_times_members(rs: Seq<TestResult>)
    ensures
        forall|j: int|
            0 <= j < working_times(rs).len() ==> exists|i: int|
                #![trigger rs[i]]
                0 <= i < rs.len() && timed_working(rs[i]) && rs[i].response_time_ms == Some(
                    #[trigger] working_times(rs)[j],
                ),
        forall|i: int|
            0 <= i < rs.len() && #[trigger] timed_working(rs[i]) ==> working_times(rs).contains(
                rs[i].response_time_ms->0,
            ),
    decreases rs.len(),
{
    if rs.len() > 0 {
        let t = rs.drop_last();
        let n = t.len();
        lemma_working_times_members(t);
        let wt = working_times(t);
        let w = working_times(rs);
        assert forall|j: int| 0 <= j < w.len() implies exists|i: int|
            #![trigger rs[i]]
            0 <= i < rs.len() && timed_working(rs[i]) && rs[i].response_time_ms == Some(
                #[trigger] w[j],
            ) by {
            if j < wt.len() {
                assert(w[j] == wt[j]);
                let i = choose|i: int|
                    #![trigger t[i]]
                    0 <= i < t.len() && timed_working(t[i]) && t[i].response_time_ms == Some(wt[j]);
                assert(rs[i] == t[i]);
            } else {
                assert(rs[n as int] == rs.last());
            }
        }
        assert forall|i: int| 0 <= i < rs.len() && #[trigger] timed_working(rs[i]) implies w.contains(
            rs[i].response_time_ms->0,
        ) by {
            if i < n {
                assert(rs[i] == t[i]);
                let k = choose|k: int| 0 <= k < wt.len() && wt[k] == t[i].response_time_ms->0;
                assert(w[k] == wt[k]);
            } else {
                assert(rs[i] == rs.last());
                assert(w[wt.len() as int] == rs.last().response_time_ms->0);
            }
        }
    }
}

/// The least of a sequence is one of its values and at most each of them; likewise
/// the greatest is one of them and at least each.
proof fn lemma_seq_extreme_members(s: Seq<u64>)
    ensures
        seq_min(s) is Some ==> s.contains(seq_min(s)->0),
        seq_min(s) is Some ==> forall|j: int| 0 <= j < s.len() ==> seq_min(s)->0 <= #[trigger] s[j],
        seq_max(s) is Some ==> s.contains(seq_max(s)->0),
        seq_max(s) is Some ==> forall|j: int| 0 <= j < s.len() ==> #[trigger] s[j] <= seq_max(s)->0,
    decreases s.len(),
{
    if s.len() > 0 {
        let t = s.drop_last();
        lemma_seq_extreme_members(t);
        assert(s[s.len() - 1] == s.last());
        assert forall|j: int| 0 <= j < t.len() implies #[trigger] s[j] == t[j] by {}
        if seq_min(t) is Some {
            let k = choose|k: int| 0 <= k < t.len() && t[k] == seq_min(t)->0;
            assert(s[k] == t[k]);
        }
        if seq_max(t) is Some {
            let k = choose|k: int| 0 <= k < t.len() && t[k] == seq_max(t)->0;
            assert(s[k] == t[k]);
        }
    }
}

/// The fastest and the slowest response times of the statistics are those of working,
/// timed results: each is the time of some such result, the fastest is at most and the
/// slowest at least the time of every such result, and both are absent exactly when no
/// working result reports a time.
pub proof fn lemma_statistics_extremes(rs: Seq<TestResult>, st: TestStatistics)
    requires
        statistics_of(rs, st),
    ensures
        st.fastest_response_time_ms is Some <==> exists|i: int|
            0 <= i < rs.len() && #[trigger] timed_working(rs[i]),
        st.slowest_response_time_ms is Some <==> exists|i: int|
            0 <= i < rs.len() && #[trigger] timed_working(rs[i]),
        st.fastest_response_time_ms is Some ==> exists|i: int|
            0 <= i < rs.len() && #[trigger] timed_working(rs[i]) && rs[i].response_time_ms
                == st.fastest_response_time_ms,
        st.slowest_response_time_ms is Some ==> exists|i: int|
            0 <= i < rs.len() && #[trigger] timed_working(rs[i]) && rs[i].response_time_ms
                == st.slowest_response_time_ms,
        forall|i: int|
            0 <= i < rs.len() && #[trigger] timed_working(rs[i]) ==> st.fastest_response_time_ms->0
                <= rs[i].response_time_ms->0 <= st.slowest_response_time_ms->0,
{
    let w = working_times(rs);
    lemma_working_times_members(rs);
    lemma_seq_extreme_members(w);
    lemma_seq_extremes(w);
    if w.len() > 0 {
        assert(exists|i: int| #![trigger rs[i]] 0 <= i < rs.len() && timed_working(rs[i])
            && rs[i].response_time_ms == Some(w[0]));
    }
    if st.fastest_response_time_ms is Some {
        let k = choose|k: int| 0 <= k < w.len() && w[k] == st.fastest_response_time_ms->0;
        assert(exists|i: int| #![trigger rs[i]] 0 <= i < rs.len() && timed_working(rs[i])
            && rs[i].response_time_ms == Some(w[k]));
    }
    if st.slowest_response_time_ms is Some {
        let k = choose|k: int| 0 <= k < w.len() && w[k] == st.slowest_response_time_ms->0;
        assert(exists|i: int| #![trigger rs[i]] 0 <= i < rs.len() && timed_working(rs[i])
            && rs[i].response_time_ms == Some(w[k]));
    }
    assert forall|i: int| 0 <= i < rs.len() && #[trigger] timed_working(rs[i]) implies st.fastest_response_time_ms->0
        <= rs[i].response_time_ms->0 <= st.slowest_response_time_ms->0 by {
        let k = choose|k: int| 0 <= k < w.len() && w[k] == rs[i].response_time_ms->0;
        assert(w[k] == rs[i].response_time_ms->0);
    }
}

} // verus!
