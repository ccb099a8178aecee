//! Running rules over a file and the autofix loop.

use vstd::prelude::*;
use crate::error::TwigParseError;
use crate::html::{contiguous, error_within, is_document_node_of, node_wf, parse, unmatched_count, HtmlNode};
use crate::suggestion::{apply_all, fix_text, has_self_overlap, sort_suggestions, stably_sorted, surviving, CheckSuggestion};

verus! {

/// Most rewrites that the autofix loop makes before it gives up.
pub const MAX_APPLY_ITERATIONS: usize = 9;

/// One file: its path, its text, and the tree and errors parsed from that text.
#[derive(Debug)]
pub struct FileContext {
    pub file_path: String,
    pub tree_root: Vec<HtmlNode>,
    pub source_code: Vec<u8>,
    pub parse_errors: Vec<TwigParseError>,
}

impl FileContext {
    /// The tree and the errors are what parsing the text gives: the nodes
    /// cover the text, each is fixed by the text at its start, and there is
    /// one error for each place where nothing matched.
    pub open spec fn wf(&self) -> bool {
        &&& contiguous(self.tree_root@, 0, self.source_code@.len() as int)
        &&& forall|i: int| 0 <= i < self.tree_root@.len() ==> node_wf(#[trigger] self.tree_root@[i])
        &&& forall|i: int| 0 <= i < self.tree_root@.len() ==> is_document_node_of(self.source_code@, #[trigger] self.tree_root@[i])
        &&& self.parse_errors@.len() == unmatched_count(self.source_code@, self.tree_root@)
        &&& forall|k: int| 0 <= k < self.parse_errors@.len() ==> error_within(#[trigger] self.parse_errors@[k], self.source_code@.len())
    }

    /// Parses `source_code` into a fresh context for `file_path`.
    pub fn new(file_path: String, source_code: Vec<u8>) -> (r: Self)
        ensures
            r.file_path == file_path,
            r.source_code == source_code,
            r.wf(),
    {
        let (tree_root, parse_errors) = parse(source_code.as_slice());
        FileContext { file_path, tree_root, source_code, parse_errors }
    }
}

/// A lint rule: it inspects a parsed file and appends its suggestions.
pub trait Rule {
    /// The name under which the rule is configured and reported.
    fn name(&self) -> String;

    /// Appends this rule's suggestions for `file_context` to `suggestions`.
    fn check(&self, file_context: &FileContext, suggestions: &mut Vec<CheckSuggestion>);
}

/// What one run of the rules found: each suggestion with the position, in the
/// list of active rules, of the rule that made it, in the order of the rules.
#[derive(Debug)]
pub struct RuleContext {
    pub suggestions: Vec<(usize, CheckSuggestion)>,
}

impl RuleContext {
    /// Every suggestion names one of `n_rules` rules.
    pub open spec fn valid_for(&self, n_rules: nat) -> bool {
        forall|i: int| 0 <= i < self.suggestions@.len() ==> (#[trigger] self.suggestions@[i]).0 < n_rules
    }
}

/// Why processing a file stopped.
#[derive(Debug, PartialEq)]
pub enum FileProcessingError {
    /// The autofix loop still had suggestions after its last allowed rewrite.
    MaxApplyIteration,
    /// One rule proposed two edits of the very same range.
    OverlappingSuggestionInSingleRule { rule_name: String },
}

/// Runs every rule once, in order, on the same file.
pub fn run_rules<R: Rule>(active_rules: &Vec<R>, file_context: &FileContext) -> (r: RuleContext)
    ensures
        r.valid_for(active_rules@.len() as nat),
        forall|i: int, j: int| 0 <= i < j < r.suggestions@.len() ==> #[trigger] r.suggestions@[i].0 <= #[trigger] r.suggestions@[j].0,
        active_rules@.len() == 0 ==> r.suggestions@.len() == 0,
{
    let mut all: Vec<(usize, CheckSuggestion)> = Vec::new();
    let mut i: usize = 0;
    while i < active_rules.len()
        invariant
            i <= active_rules@.len(),
            forall|k: int| 0 <= k < all@.len() ==> (#[trigger] all@[k]).0 < i,
            forall|k: int, j: int| 0 <= k < j < all@.len() ==> #[trigger] all@[k].0 <= #[trigger] all@[j].0,
        decreases active_rules@.len() - i,
    {
        let mut found: Vec<CheckSuggestion> = Vec::new();
        active_rules[i].check(file_context, &mut found);
        let mut found_rev: Vec<CheckSuggestion> = Vec::new();
        while found.len() > 0
            invariant
                forall|k: int| 0 <= k < all@.len() ==> (#[trigger] all@[k]).0 < i,
            decreases found@.len(),
        {
            if let Some(s) = found.pop() {
                found_rev.push(s);
            }
        }
        while found_rev.len() > 0
            invariant
                i < active_rules@.len(),
                forall|k: int| 0 <= k < all@.len() ==> (#[trigger] all@[k]).0 <= i,
                forall|k: int, j: int| 0 <= k < j < all@.len() ==> #[trigger] all@[k].0 <= #[trigger] all@[j].0,
            decreases found_rev@.len(),
        {
            if let Some(s) = found_rev.pop() {
                all.push((i, s));
            }
        }
        i = i + 1;
    }
    proof {
        if active_rules@.len() == 0 && all@.len() > 0 {
            assert(all@[0].0 < 0);
        }
    }
    RuleContext { suggestions: all }
}

/// The autofix loop. While the rules have suggestions: sort them by range,
/// stop with an error if one rule proposed two edits of one range, drop every
/// suggestion of a rule that lost a conflict, apply the rest, parse the new
/// text and run the rules again. Yields the final file, the (empty) findings
/// of the last run, whether the text changed and how many rewrites were made;
/// fails when `MAX_APPLY_ITERATIONS` rewrites have been made, before it looks
/// at the findings of the last one.
pub fn iteratively_apply_suggestions<R: Rule>(
    active_rules: &Vec<R>,
    file_context: FileContext,
    rule_result_context: RuleContext,
) -> (r: Result<(FileContext, RuleContext, bool, usize), FileProcessingError>)
    requires
        rule_result_context.valid_for(active_rules@.len() as nat),
    ensures
        rule_result_context.suggestions@.len() == 0 ==> r == Ok::<_, FileProcessingError>(
            (file_context, rule_result_context, false, 0usize),
        ),
        r matches Ok((fc, rc, dirty, iterations)) ==> {
            &&& rc.suggestions@.len() == 0
            &&& iterations < MAX_APPLY_ITERATIONS
            &&& dirty == (iterations > 0)
            &&& fc.file_path == file_context.file_path
            &&& iterations > 0 ==> fc.wf()
            &&& iterations == 0 ==> fc == file_context
            &&& rule_result_context.suggestions@.len() > 0 ==> iterations > 0
            &&& iterations == 1 ==> fc.source_code@ == apply_all(
                file_context.source_code@,
                surviving(stably_sorted(rule_result_context.suggestions@)),
            )
        },
        r matches Err(FileProcessingError::MaxApplyIteration) ==> rule_result_context.suggestions@.len() > 0
            && !has_self_overlap(stably_sorted(rule_result_context.suggestions@)),
        has_self_overlap(stably_sorted(rule_result_context.suggestions@)) ==> r is Err
            && r->Err_0 is OverlappingSuggestionInSingleRule,
        rule_result_context.suggestions@.len() > 0 && r is Ok ==> !has_self_overlap(stably_sorted(rule_result_context.suggestions@)),
{
    let mut current = file_context;
    let mut results = rule_result_context;
    let mut dirty = false;
    let mut iterations: usize = 0;
    loop
        invariant
            iterations <= MAX_APPLY_ITERATIONS,
            results.valid_for(active_rules@.len() as nat),
            dirty == (iterations > 0),
            current.file_path == file_context.file_path,
            iterations > 0 ==> current.wf(),
            iterations == 0 ==> current == file_context && results == rule_result_context,
            iterations > 0 ==> rule_result_context.suggestions@.len() > 0,
            rule_result_context.suggestions@.len() == 0 ==> iterations == 0,
            iterations > 0 ==> !has_self_overlap(stably_sorted(rule_result_context.suggestions@)),
            iterations == 1 ==> current.source_code@ == apply_all(
                file_context.source_code@,
                surviving(stably_sorted(rule_result_context.suggestions@)),
            ),
        decreases MAX_APPLY_ITERATIONS - iterations,
    {
        if iterations >= MAX_APPLY_ITERATIONS {
            return Err(FileProcessingError::MaxApplyIteration);
        }
        if results.suggestions.len() == 0 {
            return Ok((current, results, dirty, iterations));
        }
        let mut suggestions = results.suggestions;
        sort_suggestions(&mut suggestions);
        let FileContext { file_path, tree_root: _, source_code, parse_errors: _ } = current;
        let source_code = match fix_text(&suggestions, source_code) {
            Ok(text) => text,
            Err(pos) => {
                let rule = suggestions[pos].0;
                proof {
                    assert(suggestions@[pos as int].0 < active_rules@.len());
                }
                return Err(FileProcessingError::OverlappingSuggestionInSingleRule {
                    rule_name: active_rules[rule].name(),
                });
            },
        };
        dirty = true;
        current = FileContext::new(file_path, source_code);
        results = run_rules(active_rules, &current);
        iterations = iterations + 1;
    }
}

/// What analysing one file produced: the final file, the findings to report,
/// and, when autofix changed the text, the number of rewrites it took (the
/// caller then writes the text back).
#[derive(Debug)]
pub struct AnalysisOutcome {
    pub file_context: FileContext,
    pub rule_result_context: RuleContext,
    pub fixed_in_iterations: Option<usize>,
}

/// Parses a file's text, runs the rules on it and, if asked to, runs the
/// autofix loop.
pub fn run_analysis<R: Rule>(
    path: String,
    file_content: Vec<u8>,
    active_rules: &Vec<R>,
    apply_suggestions: bool,
) -> (r: Result<AnalysisOutcome, FileProcessingError>)
    ensures
        !apply_suggestions || active_rules@.len() == 0 ==> (r matches Ok(o) && o.fixed_in_iterations is None
            && o.file_context.source_code == file_content),
        r matches Ok(o) ==> {
            &&& o.file_context.wf()
            &&& o.file_context.file_path == path
            &&& o.fixed_in_iterations is None ==> o.file_context.source_code == file_content
            &&& o.fixed_in_iterations matches Some(n) ==> 0 < n < MAX_APPLY_ITERATIONS
            &&& apply_suggestions ==> o.rule_result_context.suggestions@.len() == 0
        },
        r is Err ==> apply_suggestions,
{
    let file_context = FileContext::new(path, file_content);
    let rule_result_context = run_rules(active_rules, &file_context);
    if !apply_suggestions {
        return Ok(AnalysisOutcome { file_context, rule_result_context, fixed_in_iterations: None });
    }
    match iteratively_apply_suggestions(active_rules, file_context, rule_result_context) {
        Ok((file_context, rule_result_context, dirty, iterations)) => {
            let fixed_in_iterations = if dirty { Some(iterations) } else { None };
            Ok(AnalysisOutcome { file_context, rule_result_context, fixed_in_iterations })
        },
        Err(e) => Err(e),
    }
}

} // verus!
