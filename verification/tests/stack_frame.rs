use lib::stack_frame::{
    remove_uninteresting_frames, PartialStackFrame, RepetitiveStackFrameFilter, StackFilter,
    StackFrame, REMOVED_PACKAGES_AND_CLASSES,
};

fn parse(line: &str) -> StackFrame {
    StackFrame::from_stack_trace_line(line).expect("that line parses")
}

#[test]
fn an_ordinary_frame_comes_apart_into_its_pieces() {
    let frame = parse("#3      Foo.bar (package:baz/qux.dart:12:34)");
    assert_eq!(frame.number, 3);
    assert_eq!(frame.class_name, "Foo");
    assert_eq!(frame.method, "bar");
    assert_eq!(frame.package_scheme, "package");
    assert_eq!(frame.package, "baz");
    assert_eq!(frame.package_path, "qux.dart");
    assert_eq!(frame.line, 12);
    assert_eq!(frame.column, 34);
    assert!(!frame.is_constructor);
    assert_eq!(
        frame.source, "#3      Foo.bar (package:baz/qux.dart:12:34)",
        "and the line is kept exactly as it arrived"
    );
}

#[test]
fn a_closure_inside_a_method_is_that_method() {
    let frame = parse("#0      Foo.bar.<anonymous closure> (package:baz/qux.dart:1:2)");
    assert_eq!(frame.class_name, "Foo");
    assert_eq!(frame.method, "bar");
}

#[test]
fn a_frame_beginning_new_is_a_constructor() {
    let plain = parse("#0      new Foo (package:baz/qux.dart:1:2)");
    assert!(plain.is_constructor);
    assert_eq!(plain.class_name, "Foo");
    assert_eq!(plain.method, "", "an unnamed constructor has no method");

    let named = parse("#0      new Foo.bar (package:baz/qux.dart:1:2)");
    assert!(named.is_constructor);
    assert_eq!(named.class_name, "Foo");
    assert_eq!(named.method, "bar");
}

#[test]
fn a_bare_function_has_no_class() {
    let frame = parse("#0      main (package:baz/qux.dart:1:2)");
    assert_eq!(frame.class_name, "");
    assert_eq!(frame.method, "main");
}

#[test]
fn a_missing_position_is_minus_one_rather_than_zero() {
    let no_column = parse("#0      main (package:baz/qux.dart:12)");
    assert_eq!(no_column.line, 12);
    assert_eq!(no_column.column, -1);

    let neither = parse("#0      main (package:baz/qux.dart)");
    assert_eq!(neither.line, -1);
    assert_eq!(neither.column, -1);
    assert_eq!(neither.package_path, "qux.dart");
}

#[test]
fn only_the_dart_and_package_schemes_have_a_package_to_name() {
    let from_package = parse("#0      main (package:baz/lib/qux.dart:1:2)");
    assert_eq!(from_package.package, "baz");
    assert_eq!(from_package.package_path, "lib/qux.dart");

    let from_dart = parse("#0      main (dart:async/future.dart:1:2)");
    assert_eq!(from_dart.package_scheme, "dart");
    assert_eq!(from_dart.package, "async");
    assert_eq!(from_dart.package_path, "future.dart");

    let from_file = parse("#0      main (file:///home/me/qux.dart:1:2)");
    assert_eq!(from_file.package_scheme, "file");
    assert_eq!(from_file.package, "<unknown>");
    assert_eq!(from_file.package_path, "///home/me/qux.dart");
}

#[test]
fn the_two_synthetic_frames_are_recognised_by_their_whole_line() {
    let gap = parse("<asynchronous suspension>");
    assert_eq!(gap, StackFrame::asynchronous_suspension());
    assert_eq!(gap.number, -1);

    let elision = parse("...");
    assert_eq!(elision, StackFrame::stack_overflow_elision());
}

#[test]
fn a_line_that_does_not_parse_costs_only_itself() {
    let frames = StackFrame::from_stack_string(
        "Error: something went wrong\n\
         #0      main (package:baz/qux.dart:1:2)\n\
         \n\
         #1      Foo.bar (package:baz/qux.dart:3:4)\n",
    );
    assert_eq!(frames.len(), 2, "the message and the blank line are gone");
    assert_eq!(frames[0].number, 0);
    assert_eq!(frames[1].number, 1);
}

fn frames(lines: &[&str]) -> Vec<StackFrame> {
    lines.iter().map(|line| parse(line)).collect()
}

fn framework(method: &str) -> String {
    format!("#0      Widget.{method} (package:flutter/src/widgets/framework.dart:1:2)")
}

#[test]
fn a_partial_frame_matches_the_code_and_not_the_line_number() {
    let pattern = PartialStackFrame::new("flutter", "Widget", "build");
    assert!(pattern.matches(&parse(&framework("build"))));
    assert!(pattern.matches(&parse(
        "#9      Widget.build (package:flutter/src/widgets/framework.dart:999:1)"
    )));
    assert!(!pattern.matches(&parse(&framework("layout"))));
}

#[test]
fn the_package_is_a_pattern_while_the_class_and_method_must_be_equal() {
    let pattern = PartialStackFrame::new("flutter", "Widget", "build");
    assert!(
        pattern.matches(&parse(
            "#0      Widget.build (package:flutter/src/widgets/framework.dart:1:2)"
        )),
        "the package name appears in the path"
    );
    assert!(
        pattern.matches(&parse(
            "#0      Widget.build (package:flutter_test/src/widget_tester.dart:1:2)"
        )),
        "a package merely containing the pattern matches too"
    );

    let almost = PartialStackFrame::new("flutter", "Widget", "buil");
    assert!(
        !almost.matches(&parse(&framework("build"))),
        "but the method is compared whole"
    );
}

#[test]
fn a_repetitive_run_is_marked_with_one_reason_for_every_frame_in_it() {
    let filter = RepetitiveStackFrameFilter::new(
        vec![
            PartialStackFrame::new("flutter", "Widget", "build"),
            PartialStackFrame::new("flutter", "Element", "rebuild"),
        ],
        "...     Normal element mounting",
    );
    let stack = frames(&[
        "#0      main (package:app/main.dart:1:2)",
        "#1      Widget.build (package:flutter/src/widgets/framework.dart:1:2)",
        "#2      Element.rebuild (package:flutter/src/widgets/framework.dart:3:4)",
        "#3      other (package:app/main.dart:5:6)",
        "#4      last (package:app/main.dart:7:8)",
    ]);
    let mut reasons = vec![None; stack.len()];
    filter.filter(&stack, &mut reasons);

    assert_eq!(reasons[0], None);
    assert_eq!(
        reasons[1].as_deref(),
        Some("...     Normal element mounting")
    );
    assert_eq!(
        reasons[2].as_deref(),
        Some("...     Normal element mounting")
    );
    assert_eq!(reasons[3], None);
}

#[test]
fn a_repetition_ending_at_the_very_last_frame_is_left_expanded() {
    let filter = RepetitiveStackFrameFilter::new(
        vec![
            PartialStackFrame::new("flutter", "Widget", "build"),
            PartialStackFrame::new("flutter", "Element", "rebuild"),
        ],
        "collapsed",
    );
    let stack = frames(&[
        "#0      main (package:app/main.dart:1:2)",
        "#1      Widget.build (package:flutter/src/widgets/framework.dart:1:2)",
        "#2      Element.rebuild (package:flutter/src/widgets/framework.dart:3:4)",
    ]);
    let mut reasons = vec![None; stack.len()];
    filter.filter(&stack, &mut reasons);
    assert_eq!(
        reasons,
        vec![None, None, None],
        "the run reaches the end, so it is never looked at"
    );

    let stack = frames(&[
        "#0      main (package:app/main.dart:1:2)",
        "#1      Widget.build (package:flutter/src/widgets/framework.dart:1:2)",
        "#2      Element.rebuild (package:flutter/src/widgets/framework.dart:3:4)",
        "#3      after (package:app/main.dart:5:6)",
    ]);
    let mut reasons = vec![None; stack.len()];
    filter.filter(&stack, &mut reasons);
    assert_eq!(reasons[1].as_deref(), Some("collapsed"));
}

#[test]
fn a_matched_run_is_stepped_over_rather_than_rescanned() {
    let filter = RepetitiveStackFrameFilter::new(
        vec![PartialStackFrame::new("flutter", "Widget", "build")],
        "collapsed",
    );
    let stack = frames(&[
        "#0      Widget.build (package:flutter/a.dart:1:2)",
        "#1      Widget.build (package:flutter/a.dart:1:2)",
        "#2      Widget.build (package:flutter/a.dart:1:2)",
        "#3      main (package:app/main.dart:1:2)",
    ]);
    let mut reasons = vec![None; stack.len()];
    filter.filter(&stack, &mut reasons);
    assert_eq!(reasons[0].as_deref(), Some("collapsed"));
    assert_eq!(reasons[1].as_deref(), Some("collapsed"));
    assert_eq!(reasons[2].as_deref(), Some("collapsed"));
}

#[test]
fn a_filter_with_more_frames_than_the_stack_marks_nothing() {
    let filter = RepetitiveStackFrameFilter::new(
        vec![
            PartialStackFrame::new("flutter", "Widget", "build"),
            PartialStackFrame::new("flutter", "Element", "rebuild"),
            PartialStackFrame::new("flutter", "Element", "mount"),
        ],
        "collapsed",
    );
    let stack = frames(&["#0      Widget.build (package:flutter/a.dart:1:2)"]);
    let mut reasons = vec![None; stack.len()];
    filter.filter(&stack, &mut reasons);
    assert_eq!(reasons, vec![None]);
    assert_eq!(filter.num_frames(), 3);
}

#[test]
fn the_machinery_that_delivered_the_error_is_taken_out_entirely() {
    let stack = frames(&[
        "#0      main (package:app/main.dart:1:2)",
        "#1      _Timer._runTimers (dart:isolate-patch/timer_impl.dart:1:2)",
        "#2      Future.then (dart:async/future.dart:3:4)",
        "#3      Trace.terse (package:stack_trace/src/trace.dart:5:6)",
        "#4      Widget.build (package:flutter/a.dart:7:8)",
    ]);
    let (kept, skipped) = remove_uninteresting_frames(stack);
    assert_eq!(skipped, 3);
    let methods: Vec<&str> = kept.iter().map(|frame| frame.method.as_str()).collect();
    assert_eq!(methods, vec!["main", "build"]);
}

#[test]
fn a_frame_from_an_ordinary_package_is_never_removed() {
    let stack = frames(&[
        "#0      main (package:app/main.dart:1:2)",
        "#1      Foo.bar (package:my_async/thing.dart:3:4)",
    ]);
    let (kept, skipped) = remove_uninteresting_frames(stack);
    assert_eq!(skipped, 0, "my_async is not dart:async");
    assert_eq!(kept.len(), 2);
}

#[test]
fn the_removal_list_is_upstreams() {
    assert_eq!(REMOVED_PACKAGES_AND_CLASSES.len(), 8);
    assert!(REMOVED_PACKAGES_AND_CLASSES.contains(&"dart:async"));
    assert!(REMOVED_PACKAGES_AND_CLASSES.contains(&"dart:async-patch"));
    assert!(REMOVED_PACKAGES_AND_CLASSES.contains(&"class _AssertionError"));
}
