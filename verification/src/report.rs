//! The results report: its exact text, the renderer that produces it, and
//! the reader that recovers the totals from it.
//!
//! The report is plain text in three sections: a header (run totals,
//! generation time, number of configurations), a ranked top-10 list, and a
//! per-configuration detail listing. [`report_text`] pins the whole text
//! down; [`render_report`] produces exactly that text;
//! [`read_totals`] reads the totals line back, and
//! [`lemma_report_totals_round_trip`] shows that what was written is what is
//! read. [`report_text`] is by construction the same for equal results up to
//! its generation-time line, which [`lemma_snapshot_stable`] states.

use vstd::prelude::*;
use vstd::string::StringExecFns;

use crate::outcome::{ResultView, TestResult};
use crate::rank::{sort_ranked, top_ranked, views_of};
use crate::text::{
    dec_str, has_prefix, is_digit_char, lemma_dec_str_digits, lemma_digit_run_of_concat,
    lemma_has_prefix_concat, lemma_val_of_dec, parse_u128_at, push_dec_u128, read_u128_at,
    str_to_chars,
};

verus! {

/// Everything of the report before the first total: the banner line and the
/// totals line's label.
pub open spec fn totals_prefix() -> Seq<char> {
    "=== BDPI Tester Results ===\nTotal successful: "@
}

/// The label between the two totals.
pub open spec fn totals_mid() -> Seq<char> {
    ", total failed: "@
}

/// Probes that succeeded, summed over all results.
pub open spec fn total_successes(rs: Seq<ResultView>) -> nat
    decreases rs.len(),
{
    if rs.len() == 0 {
        0
    } else {
        total_successes(rs.drop_last()) + rs.last().successes()
    }
}

/// Probes that failed, summed over all results.
pub open spec fn total_failures(rs: Seq<ResultView>) -> nat
    decreases rs.len(),
{
    if rs.len() == 0 {
        0
    } else {
        total_failures(rs.drop_last()) + (rs.last().failed_domains.len())
    }
}

/// A success rate in permille, shown with one decimal: `667` is `66.7`.
pub open spec fn rate_str(p: nat) -> Seq<char> {
    dec_str(p / 10) + "."@ + dec_str(p % 10)
}

/// One line of the top list.
pub open spec fn top_line(rank: nat, v: ResultView) -> Seq<char> {
    dec_str(rank) + ". "@ + v.config + " (port "@ + dec_str(v.socks5_port as nat)
        + ") - Success: "@ + dec_str(v.successes()) + "/"@ + dec_str(v.total()) + " ("@
        + rate_str(v.rate()) + "%)\n"@
}

/// The first `k` lines of the top list over the ranked results.
pub open spec fn top_lines(sorted: Seq<ResultView>, k: nat) -> Seq<char>
    recommends
        k <= sorted.len(),
    decreases k,
{
    if k == 0 {
        Seq::empty()
    } else {
        top_lines(sorted, (k - 1) as nat) + top_line(k, sorted[k - 1])
    }
}

/// One line per domain, each with the given marker.
pub open spec fn domain_lines(ds: Seq<Seq<char>>, marker: Seq<char>) -> Seq<char>
    decreases ds.len(),
{
    if ds.len() == 0 {
        Seq::empty()
    } else {
        domain_lines(ds.drop_last(), marker) + marker + ds.last() + "\n"@
    }
}

/// The separator closing each detail block.
pub open spec fn separator() -> Seq<char> {
    "============================================================\n"@
}

/// The detail block of one result: its configuration and port, its rate, and
/// every successful and failed domain (the failed list is omitted when
/// empty, as there is nothing to list).
pub open spec fn detail_block(v: ResultView) -> Seq<char> {
    "\nConfig: "@ + v.config + " (port "@ + dec_str(v.socks5_port as nat) + ")\n"@
        + "Success rate: "@ + rate_str(v.rate()) + "% ("@ + dec_str(v.successes()) + "/"@
        + dec_str(v.total()) + ")\n"@ + "Successful domains:\n"@ + domain_lines(
        v.successful_domains,
        "  + "@,
    ) + (if v.failed_domains.len() == 0 {
        Seq::<char>::empty()
    } else {
        "Failed domains:\n"@ + domain_lines(v.failed_domains, "  - "@)
    }) + separator()
}

/// The detail blocks of all results, in aggregation order.
pub open spec fn detail_blocks(rs: Seq<ResultView>) -> Seq<char>
    decreases rs.len(),
{
    if rs.len() == 0 {
        Seq::empty()
    } else {
        detail_blocks(rs.drop_last()) + detail_block(rs.last())
    }
}

/// How many results the top list shows: ten, or all of them if fewer.
pub open spec fn top_count(rs: Seq<ResultView>) -> nat {
    if rs.len() < 10 {
        rs.len()
    } else {
        10
    }
}

/// The part of the report before the generation-time line: banner and run
/// totals. Depends on the results alone.
pub open spec fn report_stable_prefix(rs: Seq<ResultView>) -> Seq<char> {
    totals_prefix() + dec_str(total_successes(rs)) + totals_mid() + dec_str(total_failures(rs))
        + "\n"@
}

/// The generation-time line.
pub open spec fn gen_line(ts: Seq<char>) -> Seq<char> {
    "Generated: "@ + ts + "\n"@
}

/// The part of the report after the generation-time line: configuration
/// count, top list and details. Depends on the results alone.
pub open spec fn report_stable_suffix(rs: Seq<ResultView>) -> Seq<char> {
    "Total configs tested: "@ + dec_str(rs.len()) + "\n"@ + "\n=== TOP 10 CONFIGS ===\n"@
        + top_lines(sort_ranked(rs), top_count(rs)) + "\n=== DETAILED RESULTS ===\n"@
        + detail_blocks(rs)
}

/// The whole report for the given results and generation time.
pub open spec fn report_text(rs: Seq<ResultView>, ts: Seq<char>) -> Seq<char> {
    report_stable_prefix(rs) + gen_line(ts) + report_stable_suffix(rs)
}

/// Writing the snapshot twice with no new results gives the same text both
/// times aside from the generation-time line: the text around that line is a
/// function of the results alone.
pub proof fn lemma_snapshot_stable(rs: Seq<ResultView>, ts1: Seq<char>, ts2: Seq<char>)
    ensures
        report_text(rs, ts1) == report_stable_prefix(rs) + gen_line(ts1) + report_stable_suffix(
            rs,
        ),
        report_text(rs, ts2) == report_stable_prefix(rs) + gen_line(ts2) + report_stable_suffix(
            rs,
        ),
        ts1 == ts2 ==> report_text(rs, ts1) == report_text(rs, ts2),
{
}

/// What reading the totals from a report text yields: the two numbers of the
/// totals line, provided the text starts with the banner, the totals line is
/// shaped as written, and both numbers fit in 128 bits.
pub open spec fn parse_totals(t: Seq<char>) -> Option<(nat, nat)> {
    if !has_prefix(t, totals_prefix()) {
        None
    } else {
        let t1 = t.skip(totals_prefix().len() as int);
        match parse_u128_at(t1, 0) {
            None => None,
            Some((succ, j1)) => {
                let t2 = t1.skip(j1);
                if !has_prefix(t2, totals_mid()) {
                    None
                } else {
                    let t3 = t2.skip(totals_mid().len() as int);
                    match parse_u128_at(t3, 0) {
                        None => None,
                        Some((fail, j2)) => {
                            if j2 < t3.len() && t3[j2] == '\n' {
                                Some((succ, fail))
                            } else {
                                None
                            }
                        },
                    }
                }
            },
        }
    }
}

/// Whether the characters of `p` stand at position `i` of `t`.
fn match_at(t: &Vec<char>, i: usize, p: &Vec<char>) -> (r: bool)
    requires
        i <= t@.len(),
    ensures
        r == has_prefix(t@.skip(i as int), p@),
        r ==> i + p@.len() <= t@.len(),
{
    let ghost s = t@.skip(i as int);
    if t.len() - i < p.len() {
        return false;
    }
    let mut j: usize = 0;
    while j < p.len()
        invariant
            j <= p@.len(),
            i + p@.len() <= t@.len(),
            t@.len() <= usize::MAX,
            s == t@.skip(i as int),
            forall|m: int| 0 <= m < j ==> s[m] == p@[m],
        decreases p@.len() - j,
    {
        if t[i + j] != p[j] {
            proof {
                assert(s[j as int] == t@[i + j]);
                if has_prefix(s, p@) {
                    assert(s.subrange(0, p@.len() as int)[j as int] == s[j as int]);
                }
            }
            return false;
        }
        j = j + 1;
        proof {
            assert(s[j - 1] == t@[i + j - 1]);
        }
    }
    proof {
        assert(s.subrange(0, p@.len() as int) =~= p@);
    }
    true
}

/// Reads the run totals back from a report text: `Some` of the two numbers
/// of the totals line exactly when the text starts with the banner and a
/// totals line as [`report_text`] writes them, with both numbers fitting in
/// 128 bits.
pub fn read_totals(text: &str) -> (r: Option<(u128, u128)>)
    ensures
        match r {
            Some((s, f)) => parse_totals(text@) == Some((s as nat, f as nat)),
            None => parse_totals(text@) is None,
        },
{
    let t = str_to_chars(text);
    let p1 = str_to_chars("=== BDPI Tester Results ===\nTotal successful: ");
    proof {
        vstd::std_specs::vec::axiom_spec_len(&t);
        assert(t@.skip(0) =~= t@);
    }
    if !match_at(&t, 0, &p1) {
        return None;
    }
    let i1: usize = p1.len();
    let ghost t1 = t@.skip(i1 as int);
    proof {
        assert(t1.skip(0) =~= t@.skip(i1 as int));
    }
    let first = read_u128_at(&t, i1);
    if first.is_none() {
        proof {
            assert(parse_u128_at(t1, 0) == parse_u128_at(t@, i1 as int));
        }
        return None;
    }
    let (succ, j1) = first.unwrap();
    proof {
        assert(parse_u128_at(t1, 0) == Some((succ as nat, j1 - i1)));
    }
    let p2 = str_to_chars(", total failed: ");
    let ghost t2 = t1.skip(j1 - i1);
    proof {
        assert(t2 =~= t@.skip(j1 as int));
    }
    if !match_at(&t, j1, &p2) {
        return None;
    }
    let i3: usize = j1 + p2.len();
    let ghost t3 = t2.skip(p2@.len() as int);
    proof {
        assert(t3 =~= t@.skip(i3 as int));
        assert(t3.skip(0) =~= t@.skip(i3 as int));
    }
    let second = read_u128_at(&t, i3);
    if second.is_none() {
        proof {
            assert(parse_u128_at(t3, 0) == parse_u128_at(t@, i3 as int));
        }
        return None;
    }
    let (fail, j2) = second.unwrap();
    proof {
        assert(parse_u128_at(t3, 0) == Some((fail as nat, j2 - i3)));
    }
    if j2 < t.len() && t[j2] == '\n' {
        proof {
            assert(t3[j2 - i3] == t@[j2 as int]);
        }
        Some((succ, fail))
    } else {
        proof {
            if j2 - i3 < t3.len() {
                assert(t3[j2 - i3] == t@[j2 as int]);
            }
        }
        None
    }
}

/// Round trip: the totals read back from a rendered report are exactly the
/// totals that were written, whatever the results and the generation time.
#[verifier::rlimit(60)]
pub proof fn lemma_report_totals_round_trip(rs: Seq<ResultView>, ts: Seq<char>)
    requires
        total_successes(rs) <= u128::MAX,
        total_failures(rs) <= u128::MAX,
    ensures
        parse_totals(report_text(rs, ts)) == Some((total_successes(rs), total_failures(rs))),
{
    let s = total_successes(rs);
    let f = total_failures(rs);
    let t = report_text(rs, ts);
    let rest0 = gen_line(ts) + report_stable_suffix(rs);
    let tail1 = dec_str(s) + (totals_mid() + (dec_str(f) + ("\n"@ + rest0)));
    assert(t =~= totals_prefix() + tail1);
    lemma_has_prefix_concat(totals_prefix(), tail1);
    assert(t.skip(totals_prefix().len() as int) == tail1);

    // the first number: its digit run is exactly `dec_str(s)`
    lemma_dec_str_digits(s);
    let rest2 = totals_mid() + (dec_str(f) + ("\n"@ + rest0));
    reveal_strlit(", total failed: ");
    assert(rest2[0] == totals_mid()[0]);
    assert(!is_digit_char(rest2[0]));
    lemma_digit_run_of_concat(dec_str(s), rest2);
    assert(tail1.skip(0) =~= dec_str(s) + rest2);
    let k1 = dec_str(s).len() as int;
    assert(tail1.skip(0).take(k1) =~= dec_str(s));
    lemma_val_of_dec(s);
    assert(parse_u128_at(tail1, 0) == Some((s, k1)));

    // past the first number stands the second label
    assert(tail1.skip(k1) =~= rest2);
    let tail3 = dec_str(f) + ("\n"@ + rest0);
    lemma_has_prefix_concat(totals_mid(), tail3);
    assert(rest2.skip(totals_mid().len() as int) == tail3);

    // the second number, closed by the newline of the totals line
    lemma_dec_str_digits(f);
    reveal_strlit("\n");
    assert(("\n"@ + rest0)[0] == '\n');
    assert(!is_digit_char(("\n"@ + rest0)[0]));
    lemma_digit_run_of_concat(dec_str(f), "\n"@ + rest0);
    assert(tail3.skip(0) =~= dec_str(f) + ("\n"@ + rest0));
    let k2 = dec_str(f).len() as int;
    assert(tail3.skip(0).take(k2) =~= dec_str(f));
    lemma_val_of_dec(f);
    assert(parse_u128_at(tail3, 0) == Some((f, k2)));
    assert(tail3[k2] == ("\n"@ + rest0)[0]);
    assert(parse_totals(t) == Some((s, f)));
}

/// Totals summed over results backed by in-memory vectors fit in 128 bits:
/// there are at most `usize::MAX` results, each counting at most
/// `usize::MAX` domains.
pub proof fn lemma_totals_of_vec_bounded(results: Seq<TestResult>)
    requires
        results.len() <= 0xffff_ffff_ffff_ffff,
    ensures
        total_successes(views_of(results)) <= results.len() * 0xffff_ffff_ffff_ffff,
        total_failures(views_of(results)) <= results.len() * 0xffff_ffff_ffff_ffff,
        total_successes(views_of(results)) <= u128::MAX,
        total_failures(views_of(results)) <= u128::MAX,
    decreases results.len(),
{
    let vs = views_of(results);
    if results.len() == 0 {
        assert(vs.len() == 0);
    } else {
        lemma_totals_of_vec_bounded(results.drop_last());
        assert(views_of(results.drop_last()) =~= vs.drop_last());
        assert(vs.last() == results.last()@);
        vstd::std_specs::vec::axiom_spec_len(&results.last().successful_domains);
        vstd::std_specs::vec::axiom_spec_len(&results.last().failed_domains);
        assert(vs.last().successes() <= 0xffff_ffff_ffff_ffff);
        assert(vs.last().failed_domains.len() <= 0xffff_ffff_ffff_ffff);
        assert((results.len() - 1) * 0xffff_ffff_ffff_ffff + 0xffff_ffff_ffff_ffff
            == results.len() * 0xffff_ffff_ffff_ffff) by (nonlinear_arith);
        assert(results.len() * 0xffff_ffff_ffff_ffff <= u128::MAX) by (nonlinear_arith)
            requires
                results.len() <= 0xffff_ffff_ffff_ffff,
        ;
    }
}

/// The totals of the results: probes that succeeded and probes that failed,
/// summed over every aggregated result.
pub fn totals_of(results: &Vec<TestResult>) -> (r: (u128, u128))
    ensures
        r.0 == total_successes(views_of(results@)),
        r.1 == total_failures(views_of(results@)),
{
    let ghost vs = views_of(results@);
    let mut succ: u128 = 0;
    let mut fail: u128 = 0;
    let mut i: usize = 0;
    while i < results.len()
        invariant
            i <= results@.len(),
            vs == views_of(results@),
            succ == total_successes(vs.take(i as int)),
            fail == total_failures(vs.take(i as int)),
            succ <= i * 0xffff_ffff_ffff_ffff,
            fail <= i * 0xffff_ffff_ffff_ffff,
        decreases results@.len() - i,
    {
        proof {
            assert(vs.take(i + 1).drop_last() =~= vs.take(i as int));
            assert(vs.take(i + 1).last() == vs[i as int]);
            assert(vs[i as int] == results@[i as int]@);
            assert((i + 1) * 0xffff_ffff_ffff_ffff == i * 0xffff_ffff_ffff_ffff
                + 0xffff_ffff_ffff_ffff) by (nonlinear_arith);
            assert(i * 0xffff_ffff_ffff_ffff + 0xffff_ffff_ffff_ffff <= u128::MAX)
                by (nonlinear_arith)
                requires
                    i < results@.len(),
                    results@.len() <= 0xffff_ffff_ffff_ffff,
            ;
        }
        succ = succ + results[i].successful_domains.len() as u128;
        fail = fail + results[i].failed_domains.len() as u128;
        i = i + 1;
    }
    proof {
        assert(vs.take(results@.len() as int) =~= vs);
    }
    (succ, fail)
}

/// Appends a permille rate with one decimal, as `rate_str` says.
fn push_rate(out: &mut String, p: u32)
    ensures
        final(out)@ == old(out)@ + rate_str(p as nat),
{
    push_dec_u128(out, (p / 10) as u128);
    out.append(".");
    push_dec_u128(out, (p % 10) as u128);
    proof {
        assert(old(out)@ + dec_str(p as nat / 10) + "."@ + dec_str(p as nat % 10) =~= old(out)@
            + rate_str(p as nat));
    }
}

/// Appends one result's counts as `s/t`.
fn push_counts(out: &mut String, t: &TestResult)
    ensures
        final(out)@ == old(out)@ + dec_str(t@.successes()) + "/"@ + dec_str(t@.total()),
{
    let s: usize = t.successful_domains.len();
    let f: usize = t.failed_domains.len();
    push_dec_u128(out, s as u128);
    out.append("/");
    push_dec_u128(out, s as u128 + f as u128);
    proof {
        assert(old(out)@ + dec_str(t@.successes()) + "/"@ + dec_str(t@.total()) =~= final(out)@);
    }
}

/// Renders the full report for the given results and generation-time text:
/// exactly the text [`report_text`] describes, with the results' totals in
/// the header, the ranked top-10 list, and a detail block per result.
pub fn render_report(results: &Vec<TestResult>, generated: &str) -> (r: String)
    ensures
        r@ == report_text(views_of(results@), generated@),
{
    let ghost vs = views_of(results@);
    let mut out = String::new();

    // header: banner, totals, generation time, configuration count
    out.append("=== BDPI Tester Results ===\nTotal successful: ");
    let totals = totals_of(results);
    push_dec_u128(&mut out, totals.0);
    out.append(", total failed: ");
    push_dec_u128(&mut out, totals.1);
    out.append("\n");
    proof {
        assert(out@ =~= report_stable_prefix(vs));
    }
    out.append("Generated: ");
    out.append(generated);
    out.append("\n");
    proof {
        assert(out@ =~= report_stable_prefix(vs) + gen_line(generated@));
    }
    let ghost head = out@;
    out.append("Total configs tested: ");
    push_dec_u128(&mut out, results.len() as u128);
    out.append("\n");

    // the ranked top list
    out.append("\n=== TOP 10 CONFIGS ===\n");
    let ghost list_head = out@;
    let ranked = top_ranked(results);
    let limit: usize = if ranked.len() < 10 {
        ranked.len()
    } else {
        10
    };
    let mut k: usize = 0;
    while k < limit
        invariant
            k <= limit,
            limit == top_count(vs),
            views_of(ranked@) == sort_ranked(vs),
            limit <= ranked@.len(),
            out@ == list_head + top_lines(sort_ranked(vs), k as nat),
        decreases limit - k,
    {
        proof {
            assert(ranked@[k as int]@ == sort_ranked(vs)[k as int]);
        }
        push_top_line(&mut out, k + 1, &ranked[k]);
        k = k + 1;
    }

    // the per-configuration details
    out.append("\n=== DETAILED RESULTS ===\n");
    let ghost detail_head = out@;
    let mut i: usize = 0;
    while i < results.len()
        invariant
            i <= results@.len(),
            vs == views_of(results@),
            out@ == detail_head + detail_blocks(vs.take(i as int)),
        decreases results@.len() - i,
    {
        let ghost before = out@;
        push_detail_block(&mut out, &results[i]);
        proof {
            assert(vs.take(i + 1).drop_last() =~= vs.take(i as int));
            assert(vs.take(i + 1).last() == vs[i as int]);
            assert(vs[i as int] == results@[i as int]@);
            assert(out@ =~= before + detail_block(vs[i as int]));
        }
        i = i + 1;
    }
    proof {
        assert(vs.take(results@.len() as int) =~= vs);
        assert(out@ =~= report_text(vs, generated@));
    }
    out
}

/// Appends one line of the top list.
fn push_top_line(out: &mut String, rank: usize, item: &TestResult)
    requires
        rank >= 1,
    ensures
        final(out)@ == old(out)@ + top_line(rank as nat, item@),
{
    push_dec_u128(out, rank as u128);
    out.append(". ");
    out.append(item.config.as_str());
    out.append(" (port ");
    push_dec_u128(out, item.socks5_port as u128);
    out.append(") - Success: ");
    push_counts(out, item);
    out.append(" (");
    let rate: u32 = item.success_rate_permille();
    push_rate(out, rate);
    out.append("%)\n");
    proof {
        assert(out@ =~= old(out)@ + top_line(rank as nat, item@));
    }
}

/// Appends the detail block of one result.
fn push_detail_block(out: &mut String, item: &TestResult)
    ensures
        final(out)@ == old(out)@ + detail_block(item@),
{
    out.append("\nConfig: ");
    out.append(item.config.as_str());
    out.append(" (port ");
    push_dec_u128(out, item.socks5_port as u128);
    out.append(")\n");
    out.append("Success rate: ");
    let rate: u32 = item.success_rate_permille();
    push_rate(out, rate);
    out.append("% (");
    push_counts(out, item);
    out.append(")\n");
    out.append("Successful domains:\n");
    push_domain_lines(out, &item.successful_domains, true);
    if item.failed_domains.len() > 0 {
        out.append("Failed domains:\n");
        push_domain_lines(out, &item.failed_domains, false);
    }
    out.append("============================================================\n");
    proof {
        assert(item@.failed_domains.len() == item.failed_domains@.len());
        assert(out@ =~= old(out)@ + detail_block(item@));
    }
}

/// Appends one line per domain, marked `  + ` for successful domains and
/// `  - ` for failed ones.
fn push_domain_lines(out: &mut String, domains: &Vec<String>, successful: bool)
    ensures
        final(out)@ == old(out)@ + domain_lines(
            domains.deep_view(),
            if successful {
                "  + "@
            } else {
                "  - "@
            },
        ),
{
    let ghost ds = domains.deep_view();
    let ghost marker: Seq<char> = if successful {
        "  + "@
    } else {
        "  - "@
    };
    let mut j: usize = 0;
    while j < domains.len()
        invariant
            j <= domains@.len(),
            ds == domains.deep_view(),
            marker == (if successful {
                "  + "@
            } else {
                "  - "@
            }),
            out@ == old(out)@ + domain_lines(ds.take(j as int), marker),
        decreases domains@.len() - j,
    {
        let ghost before = out@;
        if successful {
            out.append("  + ");
        } else {
            out.append("  - ");
        }
        out.append(domains[j].as_str());
        out.append("\n");
        proof {
            assert(ds.take(j + 1).drop_last() =~= ds.take(j as int));
            assert(ds.take(j + 1).last() == ds[j as int]);
            assert(ds[j as int] == domains@[j as int]@);
            assert(out@ =~= before + marker + ds[j as int] + "\n"@);
        }
        j = j + 1;
    }
    proof {
        assert(ds.take(domains@.len() as int) =~= ds);
    }
}

} // verus!
