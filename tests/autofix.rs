use std::cell::Cell;

use ludtwig::html::{HtmlNode, HtmlPlain};
use ludtwig::process::{
    iteratively_apply_suggestions, run_analysis, run_rules, FileContext, FileProcessingError, Rule,
    RuleContext, MAX_APPLY_ITERATIONS,
};
use ludtwig::position::TextRange;
use ludtwig::suggestion::CheckSuggestion;

fn plains<'a>(nodes: &'a [HtmlNode], out: &mut Vec<&'a HtmlPlain>) {
    for n in nodes {
        match n {
            HtmlNode::Tag(t) => plains(&t.children, out),
            HtmlNode::Plain(p) => out.push(p),
        }
    }
}

fn suggestion(start: usize, end: usize, with: &str) -> CheckSuggestion {
    CheckSuggestion {
        syntax_range: TextRange { start, end },
        replace_with: with.as_bytes().to_vec(),
        message: None,
    }
}

/// Replaces each text run `from` by `to`; with `one_at_a_time` only the first per run.
struct Rename {
    from: &'static str,
    to: &'static str,
    one_at_a_time: bool,
}

impl Rule for Rename {
    fn name(&self) -> String {
        format!("rename-{}", self.from)
    }

    fn check(&self, file_context: &FileContext, suggestions: &mut Vec<CheckSuggestion>) {
        let mut found = Vec::new();
        plains(&file_context.tree_root, &mut found);
        for p in found {
            if &file_context.source_code[p.plain.start..p.plain.end] == self.from.as_bytes() {
                suggestions.push(CheckSuggestion {
                    syntax_range: p.plain,
                    replace_with: self.to.as_bytes().to_vec(),
                    message: Some(format!("use {}", self.to)),
                });
                if self.one_at_a_time {
                    return;
                }
            }
        }
    }
}

/// Always inserts a byte at the start of the file, counting its runs.
struct Always {
    runs: Cell<usize>,
}

impl Rule for Always {
    fn name(&self) -> String {
        "always".to_string()
    }

    fn check(&self, _file_context: &FileContext, suggestions: &mut Vec<CheckSuggestion>) {
        self.runs.set(self.runs.get() + 1);
        suggestions.push(suggestion(0, 0, "x"));
    }
}

/// Proposes two edits of the same range.
struct Twice;

impl Rule for Twice {
    fn name(&self) -> String {
        "twice".to_string()
    }

    fn check(&self, _file_context: &FileContext, suggestions: &mut Vec<CheckSuggestion>) {
        suggestions.push(suggestion(0, 1, "a"));
        suggestions.push(suggestion(0, 1, "b"));
    }
}

fn fix(rules: &Vec<Rename>, input: &str) -> Result<(String, Option<usize>), FileProcessingError> {
    run_analysis("f.twig".to_string(), input.as_bytes().to_vec(), rules, true).map(|o| {
        assert!(o.rule_result_context.suggestions.is_empty());
        (String::from_utf8(o.file_context.source_code).unwrap(), o.fixed_in_iterations)
    })
}

#[test]
fn two_offenses_found_in_one_pass_converge_in_one_iteration() {
    let rules = vec![Rename { from: "foo", to: "bar", one_at_a_time: false }];
    assert_eq!(
        fix(&rules, "<p>foo</p><i>foo</i>"),
        Ok(("<p>bar</p><i>bar</i>".to_string(), Some(1)))
    );
}

#[test]
fn two_offenses_found_one_at_a_time_converge_in_two_iterations() {
    let rules = vec![Rename { from: "foo", to: "bar", one_at_a_time: true }];
    assert_eq!(
        fix(&rules, "<p>foo</p><i>foo</i>"),
        Ok(("<p>bar</p><i>bar</i>".to_string(), Some(2)))
    );
}

#[test]
fn clean_file_takes_no_iteration() {
    let rules = vec![Rename { from: "foo", to: "bar", one_at_a_time: false }];
    assert_eq!(fix(&rules, "<p>ok</p>"), Ok(("<p>ok</p>".to_string(), None)));
}

#[test]
fn no_active_rules_leave_text_unchanged() {
    let rules: Vec<Rename> = vec![];
    let input = "<p>foo</p> {{ broken <";
    assert_eq!(fix(&rules, input), Ok((input.to_string(), None)));
}

#[test]
fn without_autofix_text_is_kept_and_findings_reported() {
    let rules = vec![Rename { from: "foo", to: "bar", one_at_a_time: false }];
    let o = run_analysis("f.twig".to_string(), b"<p>foo</p>".to_vec(), &rules, false).unwrap();
    assert_eq!(o.file_context.source_code, b"<p>foo</p>".to_vec());
    assert_eq!(o.fixed_in_iterations, None);
    assert_eq!(o.rule_result_context.suggestions.len(), 1);
    assert_eq!(o.rule_result_context.suggestions[0].0, 0);
    assert_eq!(o.rule_result_context.suggestions[0].1.syntax_range, TextRange { start: 3, end: 6 });
}

#[test]
fn converged_result_has_no_suggestions_when_rules_run_again() {
    let rules = vec![Rename { from: "foo", to: "bar", one_at_a_time: true }];
    let o = run_analysis("f.twig".to_string(), b"<p>foo</p>foo".to_vec(), &rules, true).unwrap();
    let again = run_rules(&rules, &o.file_context);
    assert!(again.suggestions.is_empty());
}

#[test]
fn rule_that_always_proposes_hits_the_iteration_bound() {
    let rules = vec![Always { runs: Cell::new(0) }];
    let r = run_analysis("f.twig".to_string(), b"<p>a</p>".to_vec(), &rules, true);
    assert_eq!(r.unwrap_err(), FileProcessingError::MaxApplyIteration);
    assert_eq!(MAX_APPLY_ITERATIONS, 9);
    // one run on the initial text, one after each of the nine rewrites
    assert_eq!(rules[0].runs.get(), 10);
}

#[test]
fn same_rule_at_same_range_fails_with_its_name() {
    let rules = vec![Twice];
    let r = run_analysis("f.twig".to_string(), b"abc".to_vec(), &rules, true);
    assert_eq!(
        r.unwrap_err(),
        FileProcessingError::OverlappingSuggestionInSingleRule { rule_name: "twice".to_string() }
    );
}

#[test]
fn different_rules_at_same_range_first_wins() {
    let rules = vec![
        Rename { from: "foo", to: "bar", one_at_a_time: false },
        Rename { from: "foo", to: "baz", one_at_a_time: false },
    ];
    assert_eq!(fix(&rules, "<p>foo</p>"), Ok(("<p>bar</p>".to_string(), Some(1))));
}

#[test]
fn disjoint_suggestions_of_two_rules_apply_together() {
    let rules = vec![
        Rename { from: "two", to: "2", one_at_a_time: false },
        Rename { from: "one", to: "1", one_at_a_time: false },
    ];
    assert_eq!(fix(&rules, "<p>one</p><p>two</p>"), Ok(("<p>1</p><p>2</p>".to_string(), Some(1))));
}

#[test]
fn empty_context_returns_input_unchanged() {
    let rules = vec![Rename { from: "foo", to: "bar", one_at_a_time: false }];
    let fc = FileContext::new("f".to_string(), b"<p>foo</p>".to_vec());
    let r = iteratively_apply_suggestions(&rules, fc, RuleContext { suggestions: vec![] }).unwrap();
    assert_eq!(r.0.source_code, b"<p>foo</p>".to_vec());
    assert!(!r.2);
    assert_eq!(r.3, 0);
}

#[test]
fn run_rules_tags_each_suggestion_with_its_rule() {
    let rules = vec![
        Rename { from: "a", to: "x", one_at_a_time: false },
        Rename { from: "b", to: "y", one_at_a_time: false },
    ];
    let fc = FileContext::new("f".to_string(), b"<p>b</p><p>a</p>".to_vec());
    let rc = run_rules(&rules, &fc);
    let tags: Vec<usize> = rc.suggestions.iter().map(|(r, _)| *r).collect();
    assert_eq!(tags, vec![0, 1]);
    assert_eq!(rc.suggestions[0].1.syntax_range, TextRange { start: 11, end: 12 });
}

#[test]
fn same_range_conflict_is_won_by_the_earlier_collected_rule() {
    let rules = vec![
        Rename { from: "foo", to: "baz", one_at_a_time: false },
        Rename { from: "foo", to: "bar", one_at_a_time: false },
    ];
    assert_eq!(fix(&rules, "<p>foo</p>"), Ok(("<p>baz</p>".to_string(), Some(1))));
}
