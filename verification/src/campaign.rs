//! A mutation campaign: a baseline build and test of the unmodified crate,
//! then one build and test per mutant, each mutant counted as caught when its
//! build or its tests fail and as surviving when they pass.
use vstd::prelude::*;
use crate::text::{
    blank, chars_of, decimal, decimal_chars, lines, lines_chars, push_all, push_str, string_of, trim,
    views, vviews,
};

verus! {

/// How one build-and-test run ended.
#[derive(Debug, Clone, PartialEq, Eq)]
pub enum RunOutcome {
    Passed,
    CompileFailed(String),
    TestsFailed(String),
}

/// A mutated copy of one source file.
#[derive(Debug, Clone)]
pub struct FileMutant {
    pub source_path: String,
    pub name: String,
    pub mutated_source: String,
    pub diff: String,
}

/// Whether the tests noticed a mutant.
#[derive(Debug, Clone, Copy, PartialEq, Eq, Structural)]
pub enum MutantStatus {
    Caught,
    Survived,
}

/// The verdict on one mutant.
#[derive(Debug, Clone)]
pub struct MutantResult {
    pub name: String,
    pub diff: String,
    pub status: MutantStatus,
}

/// The verdicts of a whole campaign, one per mutant, in campaign order.
#[derive(Debug, Clone)]
pub struct CampaignReport {
    pub results: Vec<MutantResult>,
}

/// The number of caught mutants in `rs`.
pub open spec fn count_caught(rs: Seq<MutantResult>) -> nat
    decreases rs.len(),
{
    if rs.len() == 0 {
        0
    } else {
        count_caught(rs.drop_last()) + if rs.last().status == MutantStatus::Caught {
            1nat
        } else {
            0nat
        }
    }
}

/// The surviving mutants of `rs`, in order.
pub open spec fn survivors(rs: Seq<MutantResult>) -> Seq<MutantResult>
    decreases rs.len(),
{
    if rs.len() == 0 {
        Seq::empty()
    } else if rs.last().status == MutantStatus::Survived {
        survivors(rs.drop_last()).push(rs.last())
    } else {
        survivors(rs.drop_last())
    }
}

/// The name under which the mutant at `index` is reported.
pub open spec fn mutant_name_spec(index: nat, name: Seq<char>) -> Seq<char> {
    "mutant_"@ + decimal(index) + "_"@ + name
}

/// The status that a run of a mutant gives it: caught unless it passed.
pub open spec fn status_of(outcome: RunOutcome) -> MutantStatus {
    match outcome {
        RunOutcome::Passed => MutantStatus::Survived,
        _ => MutantStatus::Caught,
    }
}

/// What the baseline run decides: nothing when it passed, else the error
/// that ends the campaign.
pub open spec fn baseline_error(outcome: Result<RunOutcome, String>) -> Option<Seq<char>> {
    match outcome {
        Ok(RunOutcome::Passed) => None,
        Ok(RunOutcome::CompileFailed(d)) => Some("Baseline compile failed:\n"@ + d@),
        Ok(RunOutcome::TestsFailed(d)) => Some("Baseline tests failed:\n"@ + d@),
        Err(e) => Some("Baseline infrastructure error: "@ + e@),
    }
}

/// The text that describes what a finished process printed.
pub open spec fn process_output_text(stdout: Seq<char>, stderr: Seq<char>) -> Seq<char> {
    let out_blank = trim(stdout).len() == 0;
    let err_blank = trim(stderr).len() == 0;
    if out_blank && err_blank {
        "no output"@
    } else if err_blank {
        "stdout:\n"@ + stdout
    } else if out_blank {
        "stderr:\n"@ + stderr
    } else {
        "stdout:\n"@ + stdout + "\nstderr:\n"@ + stderr
    }
}

impl CampaignReport {
    /// The number of mutants.
    pub fn total(&self) -> (r: usize)
        ensures
            r == self.results@.len(),
    {
        self.results.len()
    }

    /// The number of caught mutants.
    pub fn caught(&self) -> (r: usize)
        ensures
            r == count_caught(self.results@),
    {
        let mut n: usize = 0;
        let mut i: usize = 0;
        while i < self.results.len()
            invariant
                i <= self.results.len(),
                n == count_caught(self.results@.take(i as int)),
                n <= i,
            decreases self.results.len() - i,
        {
            assert(self.results@.take(i + 1).drop_last() =~= self.results@.take(i as int));
            if self.results[i].status == MutantStatus::Caught {
                n += 1;
            }
            i += 1;
        }
        assert(self.results@.take(i as int) =~= self.results@);
        n
    }

    /// The surviving mutants, in order.
    pub fn survived(&self) -> (r: Vec<MutantResult>)
        ensures
            r@ == survivors(self.results@),
    {
        let mut r: Vec<MutantResult> = Vec::new();
        let mut i: usize = 0;
        while i < self.results.len()
            invariant
                i <= self.results.len(),
                r@ == survivors(self.results@.take(i as int)),
            decreases self.results.len() - i,
        {
            assert(self.results@.take(i + 1).drop_last() =~= self.results@.take(i as int));
            let res = &self.results[i];
            if res.status == MutantStatus::Survived {
                r.push(MutantResult { name: res.name.clone(), diff: res.diff.clone(), status: res.status });
            }
            i += 1;
        }
        assert(self.results@.take(i as int) =~= self.results@);
        r
    }
}

proof fn lemma_caught_plus_survivors(rs: Seq<MutantResult>)
    ensures
        count_caught(rs) + survivors(rs).len() == rs.len(),
    decreases rs.len(),
{
    if rs.len() > 0 {
        lemma_caught_plus_survivors(rs.drop_last());
    }
}

/// Every mutant is either caught or survives: the caught count and the
/// number of survivors add up to the number of mutants.
pub proof fn law_caught_and_survived_partition(report: CampaignReport)
    ensures
        count_caught(report.results@) + survivors(report.results@).len() == report.results@.len(),
{
    lemma_caught_plus_survivors(report.results@);
}

proof fn lemma_survivors(rs: Seq<MutantResult>)
    ensures
        forall|i: int|
            0 <= i < survivors(rs).len() ==> (#[trigger] survivors(rs)[i]).status
                == MutantStatus::Survived && rs.contains(survivors(rs)[i]),
    decreases rs.len(),
{
    if rs.len() > 0 {
        let q = rs.drop_last();
        lemma_survivors(q);
        let d = survivors(q);
        let e = survivors(rs);
        assert forall|i: int| 0 <= i < e.len() implies (#[trigger] e[i]).status
            == MutantStatus::Survived && rs.contains(e[i]) by {
            if i < d.len() {
                assert(e[i] == d[i]);
                let w = choose|k: int| 0 <= k < q.len() && q[k] == d[i];
                assert(rs[w] == q[w]);
            } else {
                assert(e[i] == rs[rs.len() - 1]);
            }
        }
    }
}

/// The survivors of a report are verdicts of the report, each one Survived.
pub proof fn law_survivors_are_surviving_results(report: CampaignReport)
    ensures
        forall|i: int|
            0 <= i < survivors(report.results@).len() ==> (#[trigger] survivors(
                report.results@,
            )[i]).status == MutantStatus::Survived && report.results@.contains(
                survivors(report.results@)[i],
            ),
{
    lemma_survivors(report.results@);
}

/// The name under which the mutant at `index` is reported:
/// `mutant_<index>_<name>`.
pub fn mutant_name(index: usize, file_mutant: &FileMutant) -> (r: String)
    ensures
        r@ == mutant_name_spec(index as nat, file_mutant.name@),
{
    let mut v = chars_of("mutant_");
    let d = decimal_chars(index);
    push_all(&mut v, &d);
    push_str(&mut v, "_");
    push_str(&mut v, file_mutant.name.as_str());
    string_of(&v)
}

/// Describes what a finished process printed: `no output` when both streams
/// are blank, else the non-blank streams under `stdout:` and `stderr:` headings.
pub fn format_process_output(stdout: &str, stderr: &str) -> (r: String)
    ensures
        r@ == process_output_text(stdout@, stderr@),
{
    let out_blank = blank(stdout);
    let err_blank = blank(stderr);
    let mut v: Vec<char> = Vec::new();
    if out_blank && err_blank {
        push_str(&mut v, "no output");
    } else if err_blank {
        push_str(&mut v, "stdout:\n");
        push_str(&mut v, stdout);
    } else if out_blank {
        push_str(&mut v, "stderr:\n");
        push_str(&mut v, stderr);
    } else {
        push_str(&mut v, "stdout:\n");
        push_str(&mut v, stdout);
        push_str(&mut v, "\nstderr:\n");
        push_str(&mut v, stderr);
    }
    string_of(&v)
}

/// Decides on the baseline run: the campaign goes on only when it passed.
pub fn check_baseline(outcome: Result<RunOutcome, String>) -> (r: Result<(), String>)
    ensures
        r is Ok <==> baseline_error(outcome) is None,
        r matches Err(e) ==> baseline_error(outcome) == Some(e@),
{
    let mut v: Vec<char> = Vec::new();
    match outcome {
        Ok(RunOutcome::Passed) => {
            return Ok(());
        },
        Ok(RunOutcome::CompileFailed(details)) => {
            push_str(&mut v, "Baseline compile failed:\n");
            push_str(&mut v, details.as_str());
        },
        Ok(RunOutcome::TestsFailed(details)) => {
            push_str(&mut v, "Baseline tests failed:\n");
            push_str(&mut v, details.as_str());
        },
        Err(e) => {
            push_str(&mut v, "Baseline infrastructure error: ");
            push_str(&mut v, e.as_str());
        },
    }
    Err(string_of(&v))
}

/// The error that ends a campaign when the run of the mutant at `index`
/// could not be carried out.
pub open spec fn infrastructure_error(index: nat, name: Seq<char>, reason: Seq<char>) -> Seq<char> {
    "Infrastructure error while evaluating "@ + mutant_name_spec(index, name) + ": "@ + reason
}

/// Decides on the run of the mutant at `index`: an infrastructure error ends
/// the campaign; otherwise the mutant is caught unless the run passed.
pub fn record_mutant_outcome(
    index: usize,
    file_mutant: &FileMutant,
    outcome: Result<RunOutcome, String>,
) -> (r: Result<MutantResult, String>)
    ensures
        r is Ok <==> outcome is Ok,
        r matches Ok(m) ==> {
            &&& m.name@ == mutant_name_spec(index as nat, file_mutant.name@)
            &&& m.diff@ == file_mutant.diff@
            &&& outcome matches Ok(o) && m.status == status_of(o)
        },
        r matches Err(e) ==> outcome matches Err(x) && e@ == infrastructure_error(
            index as nat,
            file_mutant.name@,
            x@,
        ),
{
    let name = mutant_name(index, file_mutant);
    match outcome {
        Ok(o) => {
            let status = match o {
                RunOutcome::Passed => MutantStatus::Survived,
                _ => MutantStatus::Caught,
            };
            Ok(MutantResult { name, diff: file_mutant.diff.clone(), status })
        },
        Err(x) => {
            let mut v = chars_of("Infrastructure error while evaluating ");
            push_str(&mut v, name.as_str());
            push_str(&mut v, ": ");
            push_str(&mut v, x.as_str());
            Err(string_of(&v))
        },
    }
}

/// The run of the mutant `m` can have returned an outcome.
pub open spec fn may_run<F: FnMut(Option<&FileMutant>) -> Result<RunOutcome, String>>(
    execute_case: F,
    m: FileMutant,
) -> bool {
    exists|o: RunOutcome|
        #[trigger] call_ensures(execute_case, (Some(&m),), Ok::<RunOutcome, String>(o))
}

/// The runs of a campaign up to the mutant at `n` can all have gone through:
/// the baseline run can have passed, and the run of each mutant before `n`
/// can have returned an outcome.
pub open spec fn campaign_reached<F: FnMut(Option<&FileMutant>) -> Result<RunOutcome, String>>(
    execute_case: F,
    file_mutants: Seq<FileMutant>,
    n: int,
) -> bool {
    &&& call_ensures(
        execute_case,
        (None::<&FileMutant>,),
        Ok::<RunOutcome, String>(RunOutcome::Passed),
    )
    &&& forall|k: int| 0 <= k < n ==> #[trigger] may_run(execute_case, file_mutants[k])
}

proof fn lemma_campaign_step<F: FnMut(Option<&FileMutant>) -> Result<RunOutcome, String>>(
    execute_case: F,
    file_mutants: Seq<FileMutant>,
    n: int,
    o: RunOutcome,
)
    requires
        0 <= n,
        campaign_reached(execute_case, file_mutants, n),
        call_ensures(execute_case, (Some(&file_mutants[n]),), Ok::<RunOutcome, String>(o)),
    ensures
        campaign_reached(execute_case, file_mutants, n + 1),
{
    assert(may_run(execute_case, file_mutants[n]));
}

/// Runs a campaign: the baseline first (`execute_case(None)`), then each
/// mutant in order (`execute_case(Some(mutant))`), stopping at the first
/// baseline failure or infrastructure error. A campaign succeeds only when
/// the baseline passed; its report then holds one verdict per mutant, in
/// order, under its reported name and with its diff, caught unless its run
/// passed. A failed campaign reports the baseline's failure, or, once the
/// baseline passed and every earlier mutant's run returned an outcome, the
/// error of the mutant whose run could not be carried out.
pub fn run_mutation_campaign<F: FnMut(Option<&FileMutant>) -> Result<RunOutcome, String>>(
    file_mutants: &[FileMutant],
    execute_case: F,
) -> (r: Result<CampaignReport, String>)
    requires
        forall|m: Option<&FileMutant>| call_requires(execute_case, (m,)),
    ensures
        r matches Ok(report) ==> {
            &&& call_ensures(
                execute_case,
                (None::<&FileMutant>,),
                Ok::<RunOutcome, String>(RunOutcome::Passed),
            )
            &&& report.results@.len() == file_mutants@.len()
            &&& forall|i: int|
                0 <= i < file_mutants@.len() ==> {
                    &&& (#[trigger] report.results@[i]).name@ == mutant_name_spec(
                        i as nat,
                        file_mutants@[i].name@,
                    )
                    &&& report.results@[i].diff@ == file_mutants@[i].diff@
                    &&& exists|o: RunOutcome|
                        #[trigger] call_ensures(
                            execute_case,
                            (Some(&file_mutants@[i]),),
                            Ok::<RunOutcome, String>(o),
                        ) && report.results@[i].status == status_of(o)
                }
        },
        r matches Err(e) ==> {
            ||| exists|b: Result<RunOutcome, String>|
                #[trigger] call_ensures(execute_case, (None::<&FileMutant>,), b) && baseline_error(b)
                    == Some(e@)
            ||| exists|i: int, x: String|
                {
                    &&& 0 <= i < file_mutants@.len()
                    &&& campaign_reached(execute_case, file_mutants@, i)
                    &&& #[trigger] call_ensures(
                        execute_case,
                        (Some(&file_mutants@[i]),),
                        Err::<RunOutcome, String>(x),
                    )
                    &&& e@ == infrastructure_error(i as nat, file_mutants@[i].name@, x@)
                }
        },
{
    let mut run = execute_case;
    let baseline = run(None);
    let ghost b = baseline;
    match check_baseline(baseline) {
        Ok(()) => {},
        Err(e) => {
            return Err(e);
        },
    }
    assert(b == Ok::<RunOutcome, String>(RunOutcome::Passed));
    let mut results: Vec<MutantResult> = Vec::new();
    let mut i: usize = 0;
    while i < file_mutants.len()
        invariant
            i <= file_mutants@.len(),
            results@.len() == i,
            run == execute_case,
            campaign_reached(execute_case, file_mutants@, i as int),
            forall|m: Option<&FileMutant>| call_requires(execute_case, (m,)),
            call_ensures(
                execute_case,
                (None::<&FileMutant>,),
                Ok::<RunOutcome, String>(RunOutcome::Passed),
            ),
            forall|k: int|
                0 <= k < i ==> {
                    &&& (#[trigger] results@[k]).name@ == mutant_name_spec(
                        k as nat,
                        file_mutants@[k].name@,
                    )
                    &&& results@[k].diff@ == file_mutants@[k].diff@
                    &&& exists|o: RunOutcome|
                        #[trigger] call_ensures(
                            execute_case,
                            (Some(&file_mutants@[k]),),
                            Ok::<RunOutcome, String>(o),
                        ) && results@[k].status == status_of(o)
                },
        decreases file_mutants@.len() - i,
    {
        let fm = &file_mutants[i];
        let outcome = run(Some(fm));
        let ghost got = outcome;
        match record_mutant_outcome(i, fm, outcome) {
            Ok(m) => {
                results.push(m);
                proof {
                    let o = got->Ok_0;
                    assert(call_ensures(
                        execute_case,
                        (Some(&file_mutants@[i as int]),),
                        Ok::<RunOutcome, String>(o),
                    ));
                    lemma_campaign_step(execute_case, file_mutants@, i as int, o);
                }
            },
            Err(e) => {
                proof {
                    let x = got->Err_0;
                    assert(call_ensures(
                        execute_case,
                        (Some(&file_mutants@[i as int]),),
                        Err::<RunOutcome, String>(x),
                    ));
                    assert(e@ == infrastructure_error(i as nat, file_mutants@[i as int].name@, x@));
                    assert(campaign_reached(execute_case, file_mutants@, i as int));
                }
                return Err(e);
            },
        }
        i += 1;
    }
    Ok(CampaignReport { results })
}

/// What a finished compilation decides: the run ends as a compile failure,
/// described by what the compiler printed, unless it succeeded.
pub fn compile_outcome(success: bool, stdout: &str, stderr: &str) -> (r: Option<RunOutcome>)
    ensures
        success ==> r is None,
        !success ==> (r matches Some(RunOutcome::CompileFailed(d)) && d@ == process_output_text(
            stdout@,
            stderr@,
        )),
{
    if success {
        None
    } else {
        Some(RunOutcome::CompileFailed(format_process_output(stdout, stderr)))
    }
}

/// What a finished test run decides: passed when it succeeded, else a test
/// failure described by what the tests printed.
pub fn test_outcome(success: bool, stdout: &str, stderr: &str) -> (r: RunOutcome)
    ensures
        success ==> r == RunOutcome::Passed,
        !success ==> (r matches RunOutcome::TestsFailed(d) && d@ == process_output_text(
            stdout@,
            stderr@,
        )),
{
    if success {
        RunOutcome::Passed
    } else {
        RunOutcome::TestsFailed(format_process_output(stdout, stderr))
    }
}

/// The failure that surviving mutants cause, unless survivors are allowed.
pub open spec fn survivors_failure_text(survived: nat) -> Seq<char> {
    "Mutation testing failed: "@ + crate::text::decimal(survived)
        + " mutant(s) survived. Set `allow_survivors = True` on `rust_mutation_test` to opt out temporarily."@
}

/// Whether the campaign fails because mutants survived: only when some did
/// and survivors are not allowed, with the message that says so.
pub fn survivors_failure(survived: usize, allow_survivors: bool) -> (r: Option<String>)
    ensures
        r is Some <==> (survived > 0 && !allow_survivors),
        r matches Some(m) ==> m@ == survivors_failure_text(survived as nat),
{
    if survived > 0 && !allow_survivors {
        let mut v = chars_of("Mutation testing failed: ");
        push_all(&mut v, &decimal_chars(survived));
        push_str(
            &mut v,
            " mutant(s) survived. Set `allow_survivors = True` on `rust_mutation_test` to opt out temporarily.",
        );
        Some(string_of(&v))
    } else {
        None
    }
}


/// The word that the report prints for a verdict.
pub open spec fn status_word(s: MutantStatus) -> Seq<char> {
    match s {
        MutantStatus::Caught => "CAUGHT"@,
        MutantStatus::Survived => "SURVIVED"@,
    }
}

/// The report's line for one verdict.
pub open spec fn verdict_line(r: MutantResult) -> Seq<char> {
    "  "@ + r.name@ + " - "@ + status_word(r.status)
}

/// The lines that open the report of a campaign: the number of mutants, then
/// one line per verdict, in order.
pub open spec fn verdict_lines(rs: Seq<MutantResult>) -> Seq<Seq<char>> {
    seq!["Generated "@ + decimal(rs.len()) + " mutants"@] + rs.map_values(
        |r: MutantResult| verdict_line(r),
    )
}

/// The lines that show one surviving mutant: its name, the lines of its diff
/// indented, and an empty line.
pub open spec fn survivor_block(r: MutantResult) -> Seq<Seq<char>> {
    seq!["  - "@ + r.name@] + lines(r.diff@).map_values(|l: Seq<char>| "    "@ + l) + seq![
        Seq::<char>::empty(),
    ]
}

/// The blocks of the mutants `rs`, one after the other.
pub open spec fn survivor_blocks(rs: Seq<MutantResult>) -> Seq<Seq<char>>
    decreases rs.len(),
{
    if rs.len() == 0 {
        Seq::empty()
    } else {
        survivor_blocks(rs.drop_last()) + survivor_block(rs.last())
    }
}

/// The closing section of a report: nothing when no mutant survived, else an
/// empty line, a heading and the block of each survivor, in order.
pub open spec fn survivor_section(rs: Seq<MutantResult>) -> Seq<Seq<char>> {
    let s = survivors(rs);
    if s.len() == 0 {
        Seq::empty()
    } else {
        seq![Seq::<char>::empty(), "Survived mutations (test gaps):"@] + survivor_blocks(s)
    }
}

impl CampaignReport {
    /// The lines that open the report: `Generated <n> mutants`, then
    /// `  <name> - CAUGHT` or `  <name> - SURVIVED` for each verdict.
    pub fn report_lines(&self) -> (r: Vec<String>)
        ensures
            views(r@) == verdict_lines(self.results@),
    {
        let rs = &self.results;
        let mut head = chars_of("Generated ");
        push_all(&mut head, &decimal_chars(rs.len()));
        push_str(&mut head, " mutants");
        let mut out: Vec<String> = Vec::new();
        out.push(string_of(&head));
        let ghost first = seq!["Generated "@ + decimal(rs@.len()) + " mutants"@];
        assert(views(out@) =~= first);
        assert(rs@.take(0).map_values(|r: MutantResult| verdict_line(r)) =~= Seq::<Seq<char>>::empty());
        let mut i: usize = 0;
        while i < rs.len()
            invariant
                i <= rs.len(),
                first == seq!["Generated "@ + decimal(rs@.len()) + " mutants"@],
                views(out@) == first + rs@.take(i as int).map_values(
                    |r: MutantResult| verdict_line(r),
                ),
            decreases rs.len() - i,
        {
            let res = &rs[i];
            let mut line = chars_of("  ");
            push_str(&mut line, res.name.as_str());
            push_str(&mut line, " - ");
            match res.status {
                MutantStatus::Caught => push_str(&mut line, "CAUGHT"),
                MutantStatus::Survived => push_str(&mut line, "SURVIVED"),
            }
            let ghost before = views(out@);
            out.push(string_of(&line));
            assert(views(out@) =~= before.push(verdict_line(rs@[i as int])));
            assert(rs@.take(i + 1).map_values(|r: MutantResult| verdict_line(r)) =~= rs@.take(
                i as int,
            ).map_values(|r: MutantResult| verdict_line(r)).push(verdict_line(rs@[i as int])));
            i += 1;
        }
        assert(rs@.take(i as int) =~= rs@);
        out
    }

    /// The lines that close the report: none when no mutant survived, else
    /// an empty line, `Survived mutations (test gaps):`, and for each survivor
    /// `  - <name>`, each line of its diff indented by four spaces, and an
    /// empty line.
    pub fn survivor_lines(&self) -> (r: Vec<String>)
        ensures
            views(r@) == survivor_section(self.results@),
    {
        let s = self.survived();
        let mut out: Vec<String> = Vec::new();
        if s.len() == 0 {
            assert(views(out@) =~= Seq::<Seq<char>>::empty());
            return out;
        }
        out.push(String::new());
        out.push(crate::text::owned("Survived mutations (test gaps):"));
        let ghost start = seq![Seq::<char>::empty(), "Survived mutations (test gaps):"@];
        assert(views(out@) =~= start);
        assert(s@.take(0) =~= Seq::<MutantResult>::empty());
        let mut i: usize = 0;
        while i < s.len()
            invariant
                i <= s.len(),
                start == seq![Seq::<char>::empty(), "Survived mutations (test gaps):"@],
                views(out@) == start + survivor_blocks(s@.take(i as int)),
            decreases s.len() - i,
        {
            let m = &s[i];
            let ghost before = views(out@);
            let mut title = chars_of("  - ");
            push_str(&mut title, m.name.as_str());
            out.push(string_of(&title));
            let dl = lines_chars(&chars_of(m.diff.as_str()));
            let ghost dv = vviews(dl@);
            assert(dv.take(0).map_values(|l: Seq<char>| "    "@ + l) =~= Seq::<Seq<char>>::empty());
            assert(views(out@) =~= before + seq!["  - "@ + m.name@]);
            let mut k: usize = 0;
            while k < dl.len()
                invariant
                    k <= dl.len(),
                    dv == vviews(dl@),
                    dv == lines(m.diff@),
                    views(out@) == before + seq!["  - "@ + m.name@] + dv.take(k as int).map_values(
                        |l: Seq<char>| "    "@ + l,
                    ),
                decreases dl.len() - k,
            {
                let mut line = chars_of("    ");
                push_all(&mut line, &dl[k]);
                let ghost mid = views(out@);
                out.push(string_of(&line));
                assert(views(out@) =~= mid.push("    "@ + dv[k as int]));
                assert(dv.take(k + 1).map_values(|l: Seq<char>| "    "@ + l) =~= dv.take(
                    k as int,
                ).map_values(|l: Seq<char>| "    "@ + l).push("    "@ + dv[k as int]));
                k += 1;
            }
            assert(dv.take(k as int) =~= dv);
            let ghost mid = views(out@);
            out.push(String::new());
            assert(views(out@) =~= mid.push(Seq::<char>::empty()));
            assert(s@.take(i + 1).drop_last() =~= s@.take(i as int));
            assert(s@.take(i + 1).last() == s@[i as int]);
            assert(views(out@) =~= start + survivor_blocks(s@.take(i + 1)));
            i += 1;
        }
        assert(s@.take(i as int) =~= s@);
        out
    }
}


/// Whether a verdict is `Survived`.
pub open spec fn is_survived() -> spec_fn(MutantResult) -> bool {
    |r: MutantResult| r.status == MutantStatus::Survived
}

/// Whether a verdict is `Caught`.
pub open spec fn is_caught() -> spec_fn(MutantResult) -> bool {
    |r: MutantResult| r.status == MutantStatus::Caught
}

/// The survivors of a list of verdicts are exactly its `Survived` verdicts,
/// each once, in their order.
pub proof fn law_survivors_are_the_survived_verdicts(rs: Seq<MutantResult>)
    ensures
        survivors(rs) == rs.filter(is_survived()),
    decreases rs.len(),
{
    reveal(Seq::filter);
    if rs.len() == 0 {
        assert(rs =~= Seq::<MutantResult>::empty());
    } else {
        law_survivors_are_the_survived_verdicts(rs.drop_last());
    }
}

/// The caught count of a list of verdicts is the number of its `Caught`
/// verdicts.
pub proof fn law_caught_count_counts_caught_verdicts(rs: Seq<MutantResult>)
    ensures
        count_caught(rs) == rs.filter(is_caught()).len(),
    decreases rs.len(),
{
    reveal(Seq::filter);
    if rs.len() > 0 {
        law_caught_count_counts_caught_verdicts(rs.drop_last());
    }
}

} // verus!
