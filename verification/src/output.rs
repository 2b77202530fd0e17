//! What is published from the test results: one entry per working configuration,
//! a base64 subscription of all their links, the statistics, and the text of the
//! files and QR code pages written from them.

use crate::decoding::{base64_decoded, lemma_base64_round_trip};
use crate::generator::{encodable_len, lemma_encodable_fits, link_of, ConfigGenerator};
use crate::tester::{
    lemma_statistics_extremes, statistics_of, timed_working, working_count, TestResult,
    TestStatistics,
};
use crate::text::{decimal, join_strings, joined, push_decimal, push_str, string_views};
use crate::trusted::{
    base64_encode, base64_standard, qr_dense_text, render_qr_dense, rfc3339_utc_text,
    utc_now_rfc3339,
};
use vstd::prelude::*;
use vstd::string::*;
use vstd::utf8::*;

verus! {

broadcast use vstd::string::group_string_axioms;

/// One published configuration.
#[derive(Debug, Clone)]
pub struct ConfigOutput {
    pub link: String,
    pub protocol: String,
    pub transmission: String,
    pub address: String,
    pub port: u16,
    pub is_tested: bool,
    pub is_working: bool,
    pub response_time_ms: Option<u64>,
}

/// The plain values of a `ConfigOutput`.
pub struct ConfigOutputView {
    pub link: Seq<char>,
    pub protocol: Seq<char>,
    pub transmission: Seq<char>,
    pub address: Seq<char>,
    pub port: u16,
    pub is_tested: bool,
    pub is_working: bool,
    pub response_time_ms: Option<u64>,
}

impl View for ConfigOutput {
    type V = ConfigOutputView;

    open spec fn view(&self) -> ConfigOutputView {
        ConfigOutputView {
            link: self.link@,
            protocol: self.protocol@,
            transmission: self.transmission@,
            address: self.address@,
            port: self.port,
            is_tested: self.is_tested,
            is_working: self.is_working,
            response_time_ms: self.response_time_ms,
        }
    }
}

/// The plain values of a sequence of published configurations.
pub open spec fn output_views(v: Seq<ConfigOutput>) -> Seq<ConfigOutputView> {
    v.map_values(|c: ConfigOutput| c@)
}

/// Everything published from one test run.
#[derive(Debug)]
pub struct OutputBundle {
    pub subscription_link: String,
    pub configs: Vec<ConfigOutput>,
    pub statistics: TestStatistics,
    pub generated_at: String,
}

/// Why a text could not be drawn as a QR code.
#[derive(Debug, Clone, Copy, PartialEq, Eq, Structural)]
pub enum QrCodeError {
    /// The text is too long for any QR code version.
    DataTooLong,
    /// The version and error correction level do not fit together.
    InvalidVersion,
    /// The text has characters the chosen version cannot hold.
    UnsupportedCharacterSet,
    /// The ECI designator is out of range.
    InvalidEciDesignator,
    /// A character is outside the character set.
    InvalidCharacter,
}

// ---------------------------------------------------------------------------
// Specification of the published output
// ---------------------------------------------------------------------------

/// The results that report a working configuration, in order.
pub open spec fn working_results(rs: Seq<TestResult>) -> Seq<TestResult>
    decreases rs.len(),
{
    if rs.len() == 0 {
        Seq::empty()
    } else if rs.last().is_working {
        working_results(rs.drop_last()).push(rs.last())
    } else {
        working_results(rs.drop_last())
    }
}

/// The published entry of a (working) result.
pub open spec fn output_of(r: TestResult) -> ConfigOutputView {
    ConfigOutputView {
        link: link_of(r.config@),
        protocol: r.config.protocol@,
        transmission: r.config.transmission@,
        address: r.config.address@,
        port: r.config.port,
        is_tested: true,
        is_working: r.is_working,
        response_time_ms: r.response_time_ms,
    }
}

/// The share links of the working results, in order.
pub open spec fn working_links(rs: Seq<TestResult>) -> Seq<Seq<char>> {
    working_results(rs).map_values(|r: TestResult| link_of(r.config@))
}

/// The subscription text: the links of the working results, one per line.
pub open spec fn subscription_text(rs: Seq<TestResult>) -> Seq<char> {
    joined(working_links(rs), "\n"@)
}

/// The subscription: the base64 of the UTF-8 bytes of the subscription text, or empty
/// when the text is longer than half the address space.
pub open spec fn subscription_of(rs: Seq<TestResult>) -> Seq<char> {
    let bytes = encode_utf8(subscription_text(rs));
    if encodable_len(bytes.len()) {
        base64_standard(bytes)
    } else {
        Seq::empty()
    }
}

/// A bundle holds exactly what the results give, apart from its time stamp.
pub open spec fn bundle_of(rs: Seq<TestResult>, b: OutputBundle) -> bool {
    &&& output_views(b.configs@) == working_results(rs).map_values(|r: TestResult| output_of(r))
    &&& b.subscription_link@ == subscription_of(rs)
    &&& statistics_of(rs, b.statistics)
}

/// Makes the published output.
pub struct OutputGenerator {
    generator: ConfigGenerator,
}

impl OutputGenerator {
    /// The configuration generator whose links are published.
    pub closed spec fn spec_generator(self) -> ConfigGenerator {
        self.generator
    }

    /// An output generator with the default configuration generator.
    pub fn new() -> (r: Self)
        ensures
            r.spec_generator().has_default_lists(),
    {
        Self { generator: ConfigGenerator::new() }
    }

    /// The published entry of a result.
    fn config_output(&self, r: &TestResult) -> (o: ConfigOutput)
        ensures
            o@ == output_of(*r),
    {
        let link = self.generator.to_link(&r.config);
        ConfigOutput {
            link,
            protocol: r.config.protocol.as_str().to_owned(),
            transmission: r.config.transmission.as_str().to_owned(),
            address: r.config.address.as_str().to_owned(),
            port: r.config.port,
            is_tested: true,
            is_working: r.is_working,
            response_time_ms: r.response_time_ms,
        }
    }

    /// The published output of a test run, stamped with `generated_at`.
    pub fn build_output(&self, test_results: &Vec<TestResult>, generated_at: String) -> (b:
        OutputBundle)
        ensures
            bundle_of(test_results@, b),
            b.generated_at@ == generated_at@,
    {
        let ghost rs = test_results@;
        let n = test_results.len();
        let mut outputs: Vec<ConfigOutput> = Vec::new();
        let mut links: Vec<String> = Vec::new();
        for i in 0..n
            invariant
                n == rs.len(),
                rs == test_results@,
                output_views(outputs@) == working_results(rs.take(i as int)).map_values(
                    |r: TestResult| output_of(r),
                ),
                string_views(links@) == working_results(rs.take(i as int)).map_values(
                    |r: TestResult| link_of(r.config@),
                ),
        {
            proof {
                assert(rs.take(i + 1).drop_last() =~= rs.take(i as int));
                assert(rs.take(i + 1).last() == rs[i as int]);
            }
            let r = &test_results[i];
            assert(*r == rs[i as int]);
            if r.is_working {
                let o = self.config_output(r);
                let ghost ov = output_views(outputs@);
                let ghost lv = string_views(links@);
                let ghost o_view = o@;
                let link = o.link.as_str().to_owned();
                assert(link@ == link_of(rs[i as int].config@));
                outputs.push(o);
                links.push(link);
                proof {
                    let prev = working_results(rs.take(i as int));
                    let w = working_results(rs.take(i + 1));
                    assert(w == prev.push(rs[i as int]));
                    assert(output_views(outputs@) =~= ov.push(o_view));
                    assert(string_views(links@) =~= lv.push(link_of(rs[i as int].config@)));
                    assert(w.map_values(|r: TestResult| output_of(r)) =~= prev.map_values(
                        |r: TestResult| output_of(r),
                    ).push(output_of(rs[i as int])));
                    assert(w.map_values(|r: TestResult| link_of(r.config@)) =~= prev.map_values(
                        |r: TestResult| link_of(r.config@),
                    ).push(link_of(rs[i as int].config@)));
                }
            }
        }
        assert(rs.take(n as int) =~= rs);
        let text = join_strings(&links, "\n");
        let bytes = text.as_str().as_bytes();
        let subscription_link = if bytes.len() <= usize::MAX / 2 {
            proof {
                lemma_encodable_fits(bytes@.len());
            }
            base64_encode(bytes)
        } else {
            String::new()
        };
        let statistics = TestStatistics::from_results(test_results.as_slice());
        OutputBundle { subscription_link, configs: outputs, statistics, generated_at }
    }

    /// The published output of a test run, stamped with the current time.
    pub fn generate_output(&self, test_results: Vec<TestResult>) -> (b: OutputBundle)
        ensures
            bundle_of(test_results@, b),
            rfc3339_utc_text(b.generated_at@),
    {
        let now = utc_now_rfc3339();
        self.build_output(&test_results, now)
    }
}

// ---------------------------------------------------------------------------
// Text of the published files
// ---------------------------------------------------------------------------

/// The entries with the given protocol, in order.
pub open spec fn with_protocol(cs: Seq<ConfigOutputView>, p: Seq<char>) -> Seq<ConfigOutputView>
    decreases cs.len(),
{
    if cs.len() == 0 {
        Seq::empty()
    } else if cs.last().protocol == p {
        with_protocol(cs.drop_last(), p).push(cs.last())
    } else {
        with_protocol(cs.drop_last(), p)
    }
}

/// The links of a sequence of entries.
pub open spec fn links_of(cs: Seq<ConfigOutputView>) -> Seq<Seq<char>> {
    cs.map_values(|c: ConfigOutputView| c.link)
}

/// One line of the report's list of working configurations (numbered from 1).
pub open spec fn report_line(number: nat, c: ConfigOutputView) -> Seq<char> {
    let ms: u64 = match c.response_time_ms {
        Some(t) => t,
        None => 0,
    };
    decimal(number) + ". **"@ + c.transmission + "** - "@ + c.protocol + " | "@ + c.address
        + ":"@ + decimal(c.port as nat) + " | ⚡ "@ + decimal(ms as nat) + "ms\n"@
}

/// The numbered report lines of a sequence of entries.
pub open spec fn report_lines(cs: Seq<ConfigOutputView>) -> Seq<char>
    decreases cs.len(),
{
    if cs.len() == 0 {
        Seq::empty()
    } else {
        report_lines(cs.drop_last()) + report_line(cs.len(), cs.last())
    }
}

/// The report section for one protocol: a heading with the count, the numbered lines
/// and a blank line; nothing when no entry has the protocol.
pub open spec fn report_section(cs: Seq<ConfigOutputView>, p: Seq<char>) -> Seq<char> {
    let sel = with_protocol(cs, p);
    if sel.len() == 0 {
        Seq::empty()
    } else {
        "### "@ + p + " Configs ("@ + decimal(sel.len()) + ")\n\n"@ + report_lines(sel) + "\n"@
    }
}

/// Whether two string slices hold the same text.
fn same_text(a: &str, b: &str) -> (r: bool)
    ensures
        r == (a@ == b@),
{
    a.to_owned() == b.to_owned()
}

/// One numbered line of the report.
fn report_line_string(number: u64, c: &ConfigOutput) -> (r: String)
    ensures
        r@ == report_line(number as nat, c@),
{
    let mut out = String::new();
    push_decimal(&mut out, number);
    push_str(&mut out, ". **");
    push_str(&mut out, c.transmission.as_str());
    push_str(&mut out, "** - ");
    push_str(&mut out, c.protocol.as_str());
    push_str(&mut out, " | ");
    push_str(&mut out, c.address.as_str());
    push_str(&mut out, ":");
    push_decimal(&mut out, c.port as u64);
    push_str(&mut out, " | ⚡ ");
    let ms: u64 = match c.response_time_ms {
        Some(t) => t,
        None => 0,
    };
    push_decimal(&mut out, ms);
    push_str(&mut out, "ms\n");
    assert(out@ =~= report_line(number as nat, c@));
    out
}

impl OutputBundle {
    /// The entries with the given protocol.
    fn select_protocol(&self, protocol: &str) -> (r: Vec<usize>)
        ensures
            r@.map_values(|i: usize| output_views(self.configs@)[i as int]) == with_protocol(
                output_views(self.configs@),
                protocol@,
            ),
            forall|k: int| 0 <= k < r@.len() ==> r@[k] < self.configs@.len(),
    {
        let ghost cs = output_views(self.configs@);
        let n = self.configs.len();
        let mut r: Vec<usize> = Vec::new();
        for i in 0..n
            invariant
                n == cs.len(),
                cs == output_views(self.configs@),
                r@.map_values(|i: usize| cs[i as int]) == with_protocol(cs.take(i as int), protocol@),
                forall|k: int| 0 <= k < r@.len() ==> r@[k] < i,
        {
            proof {
                assert(cs.take(i + 1).drop_last() =~= cs.take(i as int));
                assert(cs.take(i + 1).last() == cs[i as int]);
            }
            let ghost before = r@.map_values(|i: usize| cs[i as int]);
            if same_text(self.configs[i].protocol.as_str(), protocol) {
                r.push(i);
                assert(r@.map_values(|i: usize| cs[i as int]) =~= before.push(cs[i as int]));
            }
        }
        assert(cs.take(n as int) =~= cs);
        r
    }

    /// The links file: every link, separated by a blank line.
    pub fn links_text(&self) -> (r: String)
        ensures
            r@ == joined(links_of(output_views(self.configs@)), "\n\n"@),
    {
        let ghost cs = output_views(self.configs@);
        let n = self.configs.len();
        let mut links: Vec<String> = Vec::new();
        for i in 0..n
            invariant
                n == cs.len(),
                cs == output_views(self.configs@),
                string_views(links@) == links_of(cs.take(i as int)),
        {
            let ghost before = string_views(links@);
            let l = self.configs[i].link.as_str().to_owned();
            assert(l@ == cs[i as int].link);
            links.push(l);
            assert(string_views(links@) =~= before.push(cs[i as int].link));
            assert(links_of(cs.take(i + 1)) =~= links_of(cs.take(i as int)).push(cs[i as int].link));
        }
        assert(cs.take(n as int) =~= cs);
        join_strings(&links, "\n\n")
    }

    /// The links file for one protocol, or `None` when no entry has that protocol.
    pub fn protocol_links_text(&self, protocol: &str) -> (r: Option<String>)
        ensures
            match r {
                Some(t) => with_protocol(output_views(self.configs@), protocol@).len() > 0 && t@
                    == joined(
                    links_of(with_protocol(output_views(self.configs@), protocol@)),
                    "\n\n"@,
                ),
                None => with_protocol(output_views(self.configs@), protocol@).len() == 0,
            },
    {
        let ghost cs = output_views(self.configs@);
        let ghost sel = with_protocol(cs, protocol@);
        let idx = self.select_protocol(protocol);
        if idx.len() == 0 {
            assert(sel.len() == 0);
            return None;
        }
        let m = idx.len();
        let mut links: Vec<String> = Vec::new();
        for k in 0..m
            invariant
                m == idx@.len(),
                cs == output_views(self.configs@),
                idx@.map_values(|i: usize| cs[i as int]) == sel,
                forall|j: int| 0 <= j < idx@.len() ==> idx@[j] < self.configs@.len(),
                string_views(links@) == links_of(sel.take(k as int)),
        {
            let i = idx[k];
            assert(sel[k as int] == cs[i as int]);
            let ghost before = string_views(links@);
            let l = self.configs[i].link.as_str().to_owned();
            assert(l@ == sel[k as int].link);
            links.push(l);
            assert(string_views(links@) =~= before.push(sel[k as int].link));
            assert(links_of(sel.take(k + 1)) =~= links_of(sel.take(k as int)).push(sel[k as int].link));
        }
        assert(sel.take(m as int) =~= sel);
        Some(join_strings(&links, "\n\n"))
    }

    /// The report section listing the entries of one protocol.
    pub fn report_section(&self, protocol: &str) -> (r: String)
        ensures
            r@ == report_section(output_views(self.configs@), protocol@),
    {
        let ghost cs = output_views(self.configs@);
        let ghost sel = with_protocol(cs, protocol@);
        let idx = self.select_protocol(protocol);
        let m = idx.len();
        if m == 0 {
            return String::new();
        }
        let mut out = String::from_str("### ");
        push_str(&mut out, protocol);
        push_str(&mut out, " Configs (");
        push_decimal(&mut out, m as u64);
        push_str(&mut out, ")\n\n");
        let ghost head = out@;
        assert(report_lines(sel.take(0)) =~= Seq::<char>::empty());
        for k in 0..m
            invariant
                m == idx@.len(),
                m == sel.len(),
                cs == output_views(self.configs@),
                idx@.map_values(|i: usize| cs[i as int]) == sel,
                forall|j: int| 0 <= j < idx@.len() ==> idx@[j] < self.configs@.len(),
                out@ == head + report_lines(sel.take(k as int)),
        {
            let i = idx[k];
            let c = &self.configs[i];
            assert(sel[k as int] == c@);
            assert(sel.take(k + 1).drop_last() =~= sel.take(k as int));
            let line = report_line_string((k + 1) as u64, c);
            push_str(&mut out, line.as_str());
            assert(sel.take(k + 1).len() == k + 1);
            assert(sel.take(k + 1).last() == sel[k as int]);
            assert(report_lines(sel.take(k + 1)) == report_lines(sel.take(k as int)) + report_line(
                (k + 1) as nat,
                sel[k as int],
            ));
            assert(out@ =~= head + report_lines(sel.take(k + 1)));
        }
        assert(sel.take(m as int) =~= sel);
        push_str(&mut out, "\n");
        out
    }
}

// ---------------------------------------------------------------------------
// Statistics and report files
// ---------------------------------------------------------------------------

/// A response time in milliseconds as text, or `N/A` when there is none.
pub open spec fn optional_ms_text(t: Option<u64>) -> Seq<char> {
    match t {
        Some(v) => decimal(v as nat),
        None => "N/A"@,
    }
}

/// The statistics file. `success_rate` and `average_ms` are the texts of the success
/// rate and of the average response time.
pub open spec fn statistics_report(
    generated_at: Seq<char>,
    st: TestStatistics,
    success_rate: Seq<char>,
    average_ms: Seq<char>,
) -> Seq<char> {
    "Configuration Test Statistics\n==============================\n\nGenerated at: "@
        + generated_at + "\n\nTotal Configs Tested: "@ + decimal(st.total_configs as nat)
        + "\nWorking Configs: "@ + decimal(st.working_configs as nat) + "\nFailed Configs: "@
        + decimal(st.failed_configs as nat) + "\nSuccess Rate: "@ + success_rate
        + "%\n\nPerformance Metrics:\n- Average Response Time: "@ + average_ms
        + " ms\n- Fastest Response Time: "@ + optional_ms_text(st.fastest_response_time_ms)
        + " ms\n- Slowest Response Time: "@ + optional_ms_text(st.slowest_response_time_ms)
        + " ms\n"@
}

/// The report's title, time stamp and counts.
pub open spec fn report_head(generated_at: Seq<char>, st: TestStatistics, success_rate: Seq<char>) -> Seq<
    char,
> {
    "# Proxy Configuration Report\n\n**Generated:** "@ + generated_at
        + "\n\n## 📊 Statistics\n\n- **Total Configs:** "@ + decimal(st.total_configs as nat)
        + "\n- **Working:** "@ + decimal(st.working_configs as nat) + " ✅\n- **Failed:** "@
        + decimal(st.failed_configs as nat) + " ❌\n- **Success Rate:** "@ + success_rate
        + "%\n\n"@
}

/// The report's performance section: the average, then the fastest and the slowest
/// response times where there are any.
pub open spec fn report_performance(st: TestStatistics, average_ms: Seq<char>) -> Seq<char> {
    "## ⚡ Performance\n\n- **Average Response:** "@ + average_ms + " ms\n"@ + match st.fastest_response_time_ms {
        Some(f) => "- **Fastest:** "@ + decimal(f as nat) + " ms\n"@,
        None => Seq::empty(),
    } + match st.slowest_response_time_ms {
        Some(t) => "- **Slowest:** "@ + decimal(t as nat) + " ms\n\n"@,
        None => Seq::empty(),
    }
}

/// The report's block with the subscription and the list of files.
pub open spec fn report_access(subscription: Seq<char>) -> Seq<char> {
    "## 🔗 Quick Access\n\n### Subscription Link\n```\n"@ + subscription + "\n```\n\n"@
        + "### Files Available\n\n- `subscription.txt` - Base64 encoded subscription link\n- `configs.json` - Complete configuration data in JSON format\n- `config_links.txt` - All working config links\n- `vless_configs.txt` - VLESS protocol configs\n- `vmess_configs.txt` - VMess protocol configs\n- `trojan_configs.txt` - Trojan protocol configs\n- `statistics.txt` - Detailed statistics report\n\n"@
}

/// The report's list of working configurations, by protocol, and its footer.
pub open spec fn report_tail(cs: Seq<ConfigOutputView>) -> Seq<char> {
    "## 📋 Working Configurations\n\n"@ + report_section(cs, "VLESS"@) + report_section(
        cs,
        "VMess"@,
    ) + report_section(cs, "Trojan"@) + "---\n\n*Generated by Advanced Proxy Config Generator*\n"@
}

/// The markdown report of a bundle. `success_rate` and `average_ms` are the texts of the
/// success rate and of the average response time.
pub open spec fn markdown_report_text(
    b: OutputBundle,
    success_rate: Seq<char>,
    average_ms: Seq<char>,
) -> Seq<char> {
    report_head(b.generated_at@, b.statistics, success_rate) + report_performance(
        b.statistics,
        average_ms,
    ) + report_access(b.subscription_link@) + report_tail(output_views(b.configs@))
}

/// Appends an optional response time, or `N/A`.
fn push_optional_ms(out: &mut String, t: Option<u64>)
    ensures
        final(out)@ == old(out)@ + optional_ms_text(t),
{
    match t {
        Some(v) => push_decimal(out, v),
        None => push_str(out, "N/A"),
    }
}

impl OutputBundle {
    /// The statistics file, with the success rate and average response time given as text.
    pub fn statistics_text(&self, success_rate: &str, average_ms: &str) -> (r: String)
        ensures
            r@ == statistics_report(self.generated_at@, self.statistics, success_rate@, average_ms@),
    {
        let st = &self.statistics;
        let mut out = String::from_str(
            "Configuration Test Statistics\n==============================\n\nGenerated at: ",
        );
        push_str(&mut out, self.generated_at.as_str());
        push_str(&mut out, "\n\nTotal Configs Tested: ");
        push_decimal(&mut out, st.total_configs as u64);
        push_str(&mut out, "\nWorking Configs: ");
        push_decimal(&mut out, st.working_configs as u64);
        push_str(&mut out, "\nFailed Configs: ");
        push_decimal(&mut out, st.failed_configs as u64);
        push_str(&mut out, "\nSuccess Rate: ");
        push_str(&mut out, success_rate);
        push_str(&mut out, "%\n\nPerformance Metrics:\n- Average Response Time: ");
        push_str(&mut out, average_ms);
        push_str(&mut out, " ms\n- Fastest Response Time: ");
        push_optional_ms(&mut out, st.fastest_response_time_ms);
        push_str(&mut out, " ms\n- Slowest Response Time: ");
        push_optional_ms(&mut out, st.slowest_response_time_ms);
        push_str(&mut out, " ms\n");
        out
    }

    fn report_head_string(&self, success_rate: &str) -> (r: String)
        ensures
            r@ == report_head(self.generated_at@, self.statistics, success_rate@),
    {
        let st = &self.statistics;
        let mut out = String::from_str("# Proxy Configuration Report\n\n**Generated:** ");
        push_str(&mut out, self.generated_at.as_str());
        push_str(&mut out, "\n\n## 📊 Statistics\n\n- **Total Configs:** ");
        push_decimal(&mut out, st.total_configs as u64);
        push_str(&mut out, "\n- **Working:** ");
        push_decimal(&mut out, st.working_configs as u64);
        push_str(&mut out, " ✅\n- **Failed:** ");
        push_decimal(&mut out, st.failed_configs as u64);
        push_str(&mut out, " ❌\n- **Success Rate:** ");
        push_str(&mut out, success_rate);
        push_str(&mut out, "%\n\n");
        out
    }

    fn report_performance_string(&self, average_ms: &str) -> (r: String)
        ensures
            r@ == report_performance(self.statistics, average_ms@),
    {
        let st = &self.statistics;
        let mut out = String::from_str("## ⚡ Performance\n\n- **Average Response:** ");
        push_str(&mut out, average_ms);
        push_str(&mut out, " ms\n");
        match st.fastest_response_time_ms {
            Some(f) => {
                push_str(&mut out, "- **Fastest:** ");
                push_decimal(&mut out, f);
                push_str(&mut out, " ms\n");
            },
            None => {},
        }
        match st.slowest_response_time_ms {
            Some(t) => {
                push_str(&mut out, "- **Slowest:** ");
                push_decimal(&mut out, t);
                push_str(&mut out, " ms\n\n");
            },
            None => {},
        }
        assert(out@ =~= report_performance(self.statistics, average_ms@));
        out
    }

    fn report_access_string(&self) -> (r: String)
        ensures
            r@ == report_access(self.subscription_link@),
    {
        let mut out = String::from_str("## 🔗 Quick Access\n\n### Subscription Link\n```\n");
        push_str(&mut out, self.subscription_link.as_str());
        push_str(&mut out, "\n```\n\n");
        push_str(
            &mut out,
            "### Files Available\n\n- `subscription.txt` - Base64 encoded subscription link\n- `configs.json` - Complete configuration data in JSON format\n- `config_links.txt` - All working config links\n- `vless_configs.txt` - VLESS protocol configs\n- `vmess_configs.txt` - VMess protocol configs\n- `trojan_configs.txt` - Trojan protocol configs\n- `statistics.txt` - Detailed statistics report\n\n",
        );
        out
    }

    fn report_tail_string(&self) -> (r: String)
        ensures
            r@ == report_tail(output_views(self.configs@)),
    {
        let mut out = String::from_str("## 📋 Working Configurations\n\n");
        let vless = self.report_section("VLESS");
        push_str(&mut out, vless.as_str());
        let vmess = self.report_section("VMess");
        push_str(&mut out, vmess.as_str());
        let trojan = self.report_section("Trojan");
        push_str(&mut out, trojan.as_str());
        push_str(&mut out, "---\n\n*Generated by Advanced Proxy Config Generator*\n");
        out
    }

    /// The markdown report, with the success rate and average response time given as text.
    pub fn markdown_report(&self, success_rate: &str, average_ms: &str) -> (r: String)
        ensures
            r@ == markdown_report_text(*self, success_rate@, average_ms@),
    {
        let mut out = self.report_head_string(success_rate);
        let perf = self.report_performance_string(average_ms);
        push_str(&mut out, perf.as_str());
        let access = self.report_access_string();
        push_str(&mut out, access.as_str());
        let tail = self.report_tail_string();
        push_str(&mut out, tail.as_str());
        out
    }
}

// ---------------------------------------------------------------------------
// Subscriptions and QR codes
// ---------------------------------------------------------------------------

/// Publishes subscriptions under an optional base URL.
pub struct SubscriptionManager {
    base_url: Option<String>,
}

/// The text of a QR code page for one entry.
pub open spec fn qr_page(c: ConfigOutputView, qr: Seq<char>) -> Seq<char> {
    "Config: "@ + c.protocol + " - "@ + c.transmission + "\nAddress: "@ + c.address + ":"@
        + decimal(c.port as nat) + "\n\n"@ + qr + "\n\nLink: "@ + c.link
}

impl SubscriptionManager {
    /// The base URL subscriptions are published under, if any.
    pub closed spec fn spec_base_url(self) -> Option<Seq<char>> {
        match self.base_url {
            Some(b) => Some(b@),
            None => None,
        }
    }

    /// A manager for the given base URL.
    pub fn new(base_url: Option<String>) -> (r: Self)
        ensures
            r.spec_base_url() == match base_url {
                Some(b) => Some(b@),
                None => None::<Seq<char>>,
            },
    {
        Self { base_url }
    }

    /// The URL of a subscription, `<base>/subscription?data=<subscription>`, when there is
    /// a base URL.
    pub fn create_subscription_url(&self, subscription_b64: &str) -> (r: Option<String>)
        ensures
            match self.spec_base_url() {
                Some(b) => r matches Some(u) && u@ == b + "/subscription?data="@
                    + subscription_b64@,
                None => r is None,
            },
    {
        match &self.base_url {
            Some(base) => {
                let mut url = base.as_str().to_owned();
                push_str(&mut url, "/subscription?data=");
                push_str(&mut url, subscription_b64);
                Some(url)
            },
            None => None,
        }
    }

    /// A link drawn as a QR code in Unicode block characters.
    pub fn create_qr_code(&self, link: &str) -> (r: Result<String, QrCodeError>)
        ensures
            match r {
                Ok(t) => qr_dense_text(link@) == Ok::<Seq<char>, QrCodeError>(t@),
                Err(e) => qr_dense_text(link@) == Err::<Seq<char>, QrCodeError>(e),
            },
    {
        render_qr_dense(link)
    }

    /// The page written for an entry's QR code.
    pub fn qr_page_text(&self, config: &ConfigOutput, qr: &str) -> (r: String)
        ensures
            r@ == qr_page(config@, qr@),
    {
        let mut out = String::from_str("Config: ");
        push_str(&mut out, config.protocol.as_str());
        push_str(&mut out, " - ");
        push_str(&mut out, config.transmission.as_str());
        push_str(&mut out, "\nAddress: ");
        push_str(&mut out, config.address.as_str());
        push_str(&mut out, ":");
        push_decimal(&mut out, config.port as u64);
        push_str(&mut out, "\n\n");
        push_str(&mut out, qr);
        push_str(&mut out, "\n\nLink: ");
        push_str(&mut out, config.link.as_str());
        out
    }
}

// ---------------------------------------------------------------------------
// Laws
// ---------------------------------------------------------------------------

/// The working results are as many as the working count, and all of them work.
pub proof fn lemma_working_results(rs: Seq<TestResult>)
    ensures
        working_results(rs).len() == working_count(rs),
        forall|i: int| 0 <= i < working_results(rs).len() ==> (#[trigger] working_results(rs)[i]).is_working,
    decreases rs.len(),
{
    if rs.len() > 0 {
        lemma_working_results(rs.drop_last());
    }
}

/// A bundle publishes one entry per working result, in the number the statistics
/// count, and every entry is marked tested and working.
pub proof fn lemma_bundle_entries(rs: Seq<TestResult>, b: OutputBundle)
    requires
        bundle_of(rs, b),
    ensures
        b.configs@.len() == b.statistics.working_configs,
        b.configs@.len() <= rs.len(),
        forall|i: int| 0 <= i < b.configs@.len() ==> (#[trigger] b.configs@[i]).is_working
            && b.configs@[i].is_tested,
{
    lemma_working_results(rs);
    crate::tester::lemma_statistics_consistent(rs, b.statistics);
    let w = working_results(rs);
    assert(output_views(b.configs@).len() == b.configs@.len());
    assert forall|i: int| 0 <= i < b.configs@.len() implies (#[trigger] b.configs@[i]).is_working
        && b.configs@[i].is_tested by {
        assert(output_views(b.configs@)[i] == b.configs@[i]@);
        assert(w.map_values(|r: TestResult| output_of(r))[i] == output_of(w[i]));
    }
}

/// The subscription decodes (as base64, then as UTF-8) back to the links of the working
/// results, one per line.
pub proof fn lemma_subscription_decodes(rs: Seq<TestResult>)
    requires
        encodable_len(encode_utf8(subscription_text(rs)).len()),
    ensures
        base64_decoded(subscription_of(rs)) == Some(encode_utf8(subscription_text(rs))),
        decode_utf8(encode_utf8(subscription_text(rs))) == joined(working_links(rs), "\n"@),
{
    lemma_base64_round_trip(encode_utf8(subscription_text(rs)));
    encode_utf8_decode_utf8(subscription_text(rs));
}

/// The report's performance section follows the results: where no working result reports
/// a response time it gives the average alone, with no fastest and no slowest line;
/// otherwise it gives the average, then the fastest and the slowest response times, which
/// are the least and the greatest time among the working results.
#[verifier::spinoff_prover]
#[verifier::rlimit(50)]
pub proof fn lemma_report_performance(
    rs: Seq<TestResult>,
    b: OutputBundle,
    success_rate: Seq<char>,
    average_ms: Seq<char>,
)
    requires
        bundle_of(rs, b),
    ensures
        (forall|i: int| 0 <= i < rs.len() ==> !#[trigger] timed_working(rs[i]))
            ==> markdown_report_text(b, success_rate, average_ms) == report_head(
            b.generated_at@,
            b.statistics,
            success_rate,
        ) + "## ⚡ Performance\n\n- **Average Response:** "@ + average_ms + " ms\n"@ + report_access(
            b.subscription_link@,
        ) + report_tail(output_views(b.configs@)),
        (exists|i: int| 0 <= i < rs.len() && #[trigger] timed_working(rs[i])) ==> {
            let fastest = b.statistics.fastest_response_time_ms->0;
            let slowest = b.statistics.slowest_response_time_ms->0;
            &&& markdown_report_text(b, success_rate, average_ms) == report_head(
                b.generated_at@,
                b.statistics,
                success_rate,
            ) + "## ⚡ Performance\n\n- **Average Response:** "@ + average_ms + " ms\n"@
                + "- **Fastest:** "@ + decimal(fastest as nat) + " ms\n"@ + "- **Slowest:** "@
                + decimal(slowest as nat) + " ms\n\n"@ + report_access(b.subscription_link@)
                + report_tail(output_views(b.configs@))
            &&& exists|i: int|
                0 <= i < rs.len() && #[trigger] timed_working(rs[i]) && rs[i].response_time_ms
                    == Some(fastest)
            &&& exists|i: int|
                0 <= i < rs.len() && #[trigger] timed_working(rs[i]) && rs[i].response_time_ms
                    == Some(slowest)
            &&& forall|i: int|
                0 <= i < rs.len() && #[trigger] timed_working(rs[i]) ==> fastest
                    <= rs[i].response_time_ms->0 <= slowest
        },
{
    let st = b.statistics;
    let head = report_head(b.generated_at@, st, success_rate);
    let access = report_access(b.subscription_link@);
    let tail = report_tail(output_views(b.configs@));
    let avg_line = "## ⚡ Performance\n\n- **Average Response:** "@ + average_ms + " ms\n"@;
    assert(markdown_report_text(b, success_rate, average_ms) == head + report_performance(
        st,
        average_ms,
    ) + access + tail);
    assert(statistics_of(rs, st));
    lemma_statistics_extremes(rs, st);
    if forall|i: int| 0 <= i < rs.len() ==> !#[trigger] timed_working(rs[i]) {
        assert(report_performance(st, average_ms) =~= avg_line) by {
            assert(st.fastest_response_time_ms is None);
            assert(st.slowest_response_time_ms is None);
        }
    } else {
        let fastest = st.fastest_response_time_ms->0;
        let slowest = st.slowest_response_time_ms->0;
        let perf = avg_line + "- **Fastest:** "@ + decimal(fastest as nat) + " ms\n"@
            + "- **Slowest:** "@ + decimal(slowest as nat) + " ms\n\n"@;
        assert(report_performance(st, average_ms) =~= perf) by {
            assert(st.fastest_response_time_ms is Some);
            assert(st.slowest_response_time_ms is Some);
        }
        assert(head + report_performance(st, average_ms) + access + tail =~= head + avg_line
            + "- **Fastest:** "@ + decimal(fastest as nat) + " ms\n"@ + "- **Slowest:** "@
            + decimal(slowest as nat) + " ms\n\n"@ + access + tail);
    }
}

} // verus!
