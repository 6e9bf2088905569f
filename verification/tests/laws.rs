//! The laws of the library on concrete values, and the functions under the
//! rules on the cases at their edges.

use rpm_spec_analyzer::ast::{
    BinOp, ChangelogDate, ConcatPart, CondBranch, CondExpr, CondKind, Conditional, ExprAst, Item,
    Month, Span, Text, TextSegment, Weekday,
};
use rpm_spec_analyzer::calendar::{later, text_of_date, weekday_of};
use rpm_spec_analyzer::condition::{canonicalise, cond_to_dnf, to_dnf, AtomTable};
use rpm_spec_analyzer::dnf::{
    distribute_and, is_contradiction, is_tautology, path_implies, simplify_subsumption, Cube, Dnf,
    Literal,
};
use rpm_spec_analyzer::expr::{
    cond_expr_resolvably_eq, exprs_equiv, flatten, is_const_false, is_const_true,
};
use rpm_spec_analyzer::names::{join, put_in_order, NameSet};
use rpm_spec_analyzer::path_cond::{branch_effective_dnf, else_effective_dnf};
use rpm_spec_analyzer::rules::buildsystem_macros::suggest_macro;
use rpm_spec_analyzer::rules::conditional_idioms::parse_with_pattern;
use rpm_spec_analyzer::rules::branch_item_subset::is_strict_submultiset;
use rpm_spec_analyzer::rules::conditional_intervals::{analyse, contradicts, IntConstraint};
use rpm_spec_analyzer::rules::dep_health::build_smell;
use rpm_spec_analyzer::shell::split_commands;
use rpm_spec_analyzer::source::lines_of;
use rpm_spec_analyzer::text::{
    comes_before, count, number, signed_number, slice_bytes, split_words, trimmed,
};

fn at() -> Span {
    Span::from_bytes(0, 0)
}

fn name(n: &str) -> ExprAst {
    ExprAst::Identifier {
        name: n.to_string(),
        data: at(),
    }
}

fn integer(n: i64) -> ExprAst {
    ExprAst::Integer {
        value: n,
        data: at(),
    }
}

fn string(s: &str) -> ExprAst {
    ExprAst::String {
        value: s.to_string(),
        data: at(),
    }
}

fn paren(e: ExprAst) -> ExprAst {
    ExprAst::Paren {
        inner: Box::new(e),
        data: at(),
    }
}

fn not(e: ExprAst) -> ExprAst {
    ExprAst::Not {
        inner: Box::new(e),
        data: at(),
    }
}

fn binary(kind: BinOp, lhs: ExprAst, rhs: ExprAst) -> ExprAst {
    ExprAst::Binary {
        kind,
        lhs: Box::new(lhs),
        rhs: Box::new(rhs),
        data: at(),
    }
}

fn and(lhs: ExprAst, rhs: ExprAst) -> ExprAst {
    binary(BinOp::LogAnd, lhs, rhs)
}

fn or(lhs: ExprAst, rhs: ExprAst) -> ExprAst {
    binary(BinOp::LogOr, lhs, rhs)
}

fn literal(atom: usize, negated: bool) -> Literal {
    Literal { atom, negated }
}

fn cube(lits: &[(usize, bool)]) -> Cube {
    let mut c = Cube::new();
    for (atom, negated) in lits {
        c.insert(literal(*atom, *negated));
    }
    c
}

fn dnf(cubes: &[&[(usize, bool)]]) -> Dnf {
    let mut d = Dnf::new();
    for c in cubes {
        d.insert(cube(c));
    }
    d
}

fn arch_list(names: &[&str]) -> CondExpr {
    CondExpr::ArchList(
        names
            .iter()
            .map(|n| Text {
                segments: vec![TextSegment::Literal(n.to_string())],
            })
            .collect(),
    )
}

fn branch(kind: CondKind, expr: CondExpr) -> CondBranch {
    CondBranch {
        kind,
        expr,
        body: Vec::new(),
        data: at(),
    }
}

fn date(weekday: Weekday, month: Month, day: u8, year: u16) -> ChangelogDate {
    ChangelogDate {
        weekday,
        month,
        day,
        year,
    }
}

fn strings(names: &[&str]) -> Vec<String> {
    names.iter().map(|n| n.to_string()).collect()
}

/// Whether a condition over named atoms is true.
fn truth(e: &ExprAst, values: &[(&str, bool)]) -> bool {
    match e {
        ExprAst::Paren { inner, .. } => truth(inner, values),
        ExprAst::Not { inner, .. } => !truth(inner, values),
        ExprAst::Binary { kind, lhs, rhs, .. } if *kind == BinOp::LogOr => {
            truth(lhs, values) || truth(rhs, values)
        }
        ExprAst::Binary { kind, lhs, rhs, .. } if *kind == BinOp::LogAnd => {
            truth(lhs, values) && truth(rhs, values)
        }
        other => {
            let key = canonicalise(other).unwrap();
            values.iter().any(|(k, v)| *k == key && *v)
        }
    }
}

// ---------------------------------------------------------------------
// Normal forms
// ---------------------------------------------------------------------

#[test]
fn product_is_true_where_both_sides_are() {
    let a = dnf(&[&[(0, false)], &[(1, false)]]);
    let b = dnf(&[&[(0, true)], &[(2, false)]]);
    let p = distribute_and(&a, &b).unwrap();
    for m in 0..8u32 {
        assert_eq!(p.eval(m), a.eval(m) && b.eval(m), "{m}");
    }
    // `A && !A` drops out.
    assert_eq!(p.len(), 3);
}

#[test]
fn union_is_true_where_one_side_is() {
    let a = dnf(&[&[(0, false)]]);
    let b = dnf(&[&[(1, true)]]);
    let mut u = a.copy();
    u.extend(&b);
    for m in 0..4u32 {
        assert_eq!(u.eval(m), a.eval(m) || b.eval(m), "{m}");
    }
}

#[test]
fn dropping_redundant_cubes_keeps_the_meaning() {
    let d = dnf(&[&[(0, false)], &[(0, false), (1, false)], &[(2, true)]]);
    let (less, changed) = simplify_subsumption(&d);
    assert!(changed);
    assert_eq!(less.len(), 2);
    for m in 0..8u32 {
        assert_eq!(less.eval(m), d.eval(m), "{m}");
    }
    let (again, changed_again) = simplify_subsumption(&less);
    assert!(!changed_again);
    assert_eq!(again.len(), 2);
}

#[test]
fn a_normal_form_is_unsatisfiable_if_it_is_empty() {
    assert!(is_contradiction(&Dnf::new()));
    assert!(!is_contradiction(&dnf(&[&[]])));
    assert!(!is_contradiction(&dnf(&[&[(0, false)]])));
}

#[test]
fn the_truth_table_decides_tautologies() {
    assert_eq!(is_tautology(&dnf(&[&[(0, false)], &[(0, true)]]), 1), Some(true));
    assert_eq!(is_tautology(&dnf(&[&[(0, false)], &[(1, true)]]), 2), Some(false));
    assert_eq!(is_tautology(&dnf(&[&[]]), 0), Some(true));
}

#[test]
fn the_truth_table_has_a_limit() {
    let d = dnf(&[&[(0, false)], &[(0, true)]]);
    assert_eq!(is_tautology(&d, 8), Some(true));
    assert_eq!(is_tautology(&d, 9), None);
    assert_eq!(path_implies(&d, &d, 9), None);
}

#[test]
fn the_truth_table_decides_implications() {
    let both = dnf(&[&[(0, false), (1, false)]]);
    let one = dnf(&[&[(0, false)]]);
    assert_eq!(path_implies(&both, &one, 2), Some(true));
    assert_eq!(path_implies(&one, &both, 2), Some(false));
}

#[test]
fn a_normal_form_means_its_expression() {
    // (A || !B) && !(A && C)
    let e = and(
        paren(or(name("A"), not(name("B")))),
        not(paren(and(name("A"), name("C")))),
    );
    let mut atoms = AtomTable::new();
    let d = to_dnf(&e, &mut atoms, false).unwrap();
    let n = to_dnf(&e, &mut atoms, true).unwrap();
    assert_eq!(atoms.len(), 3);
    for m in 0..8u32 {
        let values = [("A", m & 1 == 1), ("B", m & 2 == 2), ("C", m & 4 == 4)];
        assert_eq!(d.eval(m), truth(&e, &values), "{m}");
        assert_eq!(n.eval(m), !truth(&e, &values), "{m}");
    }
}

#[test]
fn a_list_is_true_if_one_of_its_names_is() {
    let mut atoms = AtomTable::new();
    let d = cond_to_dnf(&arch_list(&["x86_64", "aarch64"]), &mut atoms, false).unwrap();
    let n = cond_to_dnf(&arch_list(&["x86_64", "aarch64"]), &mut atoms, true).unwrap();
    assert_eq!(atoms.len(), 2);
    for m in 0..4u32 {
        assert_eq!(d.eval(m), m != 0, "{m}");
        assert_eq!(n.eval(m), m == 0, "{m}");
    }
}

#[test]
fn raw_conditions_have_no_normal_form() {
    let mut atoms = AtomTable::new();
    let raw = CondExpr::Raw(Text {
        segments: vec![TextSegment::Literal("1 + 2".to_string())],
    });
    assert!(cond_to_dnf(&raw, &mut atoms, false).is_none());
    assert_eq!(atoms.len(), 0);
}

#[test]
fn too_many_cubes_have_no_normal_form() {
    // (A0 || B0) && (A1 || B1) && ... doubles with every clause.
    let mut e = or(name("A0"), name("B0"));
    for i in 1..7 {
        e = and(e, or(name(&format!("A{i}")), name(&format!("B{i}"))));
    }
    let mut atoms = AtomTable::new();
    assert!(to_dnf(&e, &mut atoms, false).is_none());
}

// ---------------------------------------------------------------------
// Chains of branches
// ---------------------------------------------------------------------

#[test]
fn a_branch_is_taken_where_none_before_it_is() {
    let c = Conditional {
        branches: vec![
            branch(CondKind::If, CondExpr::Parsed(Box::new(name("A")))),
            branch(CondKind::Elif, CondExpr::Parsed(Box::new(name("B")))),
        ],
        otherwise: Some(vec![Item::Blank]),
        data: at(),
    };
    let mut atoms = AtomTable::new();
    let first = branch_effective_dnf(&c.branches, 0, &mut atoms).unwrap();
    let second = branch_effective_dnf(&c.branches, 1, &mut atoms).unwrap();
    let last = else_effective_dnf(&c.branches, &mut atoms).unwrap();
    assert_eq!(atoms.len(), 2);
    // The atoms are numbered as they are met: `A`, then `B`.
    for m in 0..4u32 {
        let a = m & 1 == 1;
        let b = m & 2 == 2;
        assert_eq!(first.eval(m), a, "{m}");
        assert_eq!(second.eval(m), b && !a, "{m}");
        assert_eq!(last.eval(m), !a && !b, "{m}");
    }
}

#[test]
fn a_repeated_branch_is_never_taken() {
    let branches = vec![
        branch(CondKind::If, CondExpr::Parsed(Box::new(name("A")))),
        branch(CondKind::Elif, CondExpr::Parsed(Box::new(paren(name("A"))))),
    ];
    let mut atoms = AtomTable::new();
    let d = branch_effective_dnf(&branches, 1, &mut atoms).unwrap();
    assert!(is_contradiction(&d));
}

// ---------------------------------------------------------------------
// Expressions
// ---------------------------------------------------------------------

#[test]
fn equal_shapes_differ_only_in_parentheses() {
    let a = and(name("A"), paren(or(name("B"), integer(1))));
    let b = paren(and(paren(name("A")), or(name("B"), paren(integer(1)))));
    assert!(exprs_equiv(&a, &b));
    assert!(!exprs_equiv(&a, &and(or(name("B"), integer(1)), name("A"))));
    assert!(!exprs_equiv(&string("1"), &integer(1)));
}

#[test]
fn joined_numbers_compare_by_their_parts() {
    let joined = |text: &str| ExprAst::NumericConcat {
        parts: vec![
            ConcatPart::Literal("0".to_string()),
            ConcatPart::Macro(text.to_string()),
        ],
        data: at(),
    };
    assert!(exprs_equiv(&joined("%{?rhel}"), &joined("%{?rhel}")));
    assert!(!exprs_equiv(&joined("%{?rhel}"), &joined("%{?fedora}")));
    assert_eq!(canonicalise(&joined("%{?rhel}")), None);
}

#[test]
fn chains_flatten_through_parentheses() {
    let e = or(name("A"), paren(or(name("B"), and(name("C"), name("D")))));
    let parts = flatten(&e, BinOp::LogOr);
    assert_eq!(parts.len(), 3);
    assert!(exprs_equiv(parts[0], &name("A")));
    assert!(exprs_equiv(parts[1], &name("B")));
    assert!(exprs_equiv(parts[2], &and(name("C"), name("D"))));
    assert_eq!(flatten(&e, BinOp::LogAnd).len(), 1);
}

#[test]
fn constants_count_as_they_read() {
    assert!(is_const_true(&paren(integer(7))));
    assert!(is_const_true(&string("x")));
    assert!(is_const_true(&name("true")));
    assert!(is_const_false(&integer(0)));
    assert!(is_const_false(&string("")));
    assert!(is_const_false(&name("false")));
    assert!(!is_const_true(&name("A")) && !is_const_false(&name("A")));
}

#[test]
fn conditions_with_macros_are_not_alike() {
    let plain = || CondExpr::Parsed(Box::new(name("A")));
    let macros = || {
        CondExpr::Parsed(Box::new(ExprAst::Macro {
            text: "%{x}".to_string(),
            data: at(),
        }))
    };
    assert!(cond_expr_resolvably_eq(&plain(), &plain()));
    assert!(!cond_expr_resolvably_eq(&macros(), &macros()));
    assert!(cond_expr_resolvably_eq(
        &arch_list(&["x86_64", "s390x"]),
        &arch_list(&["x86_64", "s390x"])
    ));
    assert!(!cond_expr_resolvably_eq(
        &arch_list(&["x86_64", "s390x"]),
        &arch_list(&["s390x", "x86_64"])
    ));
}

#[test]
fn atoms_have_canonical_texts() {
    let e = binary(BinOp::Ge, paren(name("X")), integer(-8));
    assert_eq!(canonicalise(&e).as_deref(), Some("(X>=-8)"));
    assert_eq!(canonicalise(&not(string("a"))).as_deref(), Some("!\"a\""));
}

// ---------------------------------------------------------------------
// Intervals
// ---------------------------------------------------------------------

fn bound(op: BinOp, n: i64) -> ExprAst {
    binary(op, name("X"), integer(n))
}

#[test]
fn an_implied_bound_is_redundant() {
    assert_eq!(
        analyse(&and(bound(BinOp::Ge, 8), bound(BinOp::Ge, 6))),
        (true, false)
    );
    // Over the integers `X > 7` and `X >= 8` are the same.
    assert_eq!(
        analyse(&and(bound(BinOp::Gt, 7), bound(BinOp::Ge, 8))),
        (true, false)
    );
}

#[test]
fn excluded_bounds_have_no_common_value() {
    assert_eq!(
        analyse(&and(bound(BinOp::Ge, 10), bound(BinOp::Lt, 5))),
        (false, true)
    );
    assert_eq!(
        analyse(&and(bound(BinOp::Gt, 5), bound(BinOp::Lt, 6))),
        (false, true)
    );
}

#[test]
fn compatible_bounds_are_left_alone() {
    assert_eq!(
        analyse(&and(bound(BinOp::Ge, 5), bound(BinOp::Lt, 10))),
        (false, false)
    );
}

#[test]
fn contradictions_do_not_depend_on_the_order() {
    for (a, x, b, y) in [
        (BinOp::Eq, 5, BinOp::Eq, 6),
        (BinOp::Ge, 10, BinOp::Lt, 5),
        (BinOp::Gt, 5, BinOp::Lt, 6),
    ] {
        assert_eq!(analyse(&and(bound(a, x), bound(b, y))), (false, true));
        assert_eq!(analyse(&and(bound(b, y), bound(a, x))), (false, true));
    }
    assert!(!analyse(&and(bound(BinOp::Eq, 5), bound(BinOp::Eq, 5))).1);
}

#[test]
fn what_cannot_be_told_of_two_bounds_is_left_open() {
    let x = name("X");
    let verdict = |a: BinOp, v: i64, b: BinOp, w: i64| {
        contradicts(
            &IntConstraint { lhs: &x, op: a, value: v },
            &IntConstraint { lhs: &x, op: b, value: w },
        )
    };
    assert_eq!(verdict(BinOp::Eq, 5, BinOp::Eq, 6), Some(true));
    assert_eq!(verdict(BinOp::Eq, 5, BinOp::Eq, 5), Some(false));
    assert_eq!(verdict(BinOp::Ge, 10, BinOp::Lt, 5), Some(true));
    assert_eq!(verdict(BinOp::Lt, 5, BinOp::Ge, 10), Some(true));
    assert_eq!(verdict(BinOp::Gt, 5, BinOp::Lt, 6), Some(true));
    assert_eq!(verdict(BinOp::Ge, 5, BinOp::Le, 5), Some(false));
    assert_eq!(verdict(BinOp::Ge, 10, BinOp::Ge, 5), None);
    assert_eq!(verdict(BinOp::Eq, 5, BinOp::Ge, 10), None);
    assert_eq!(verdict(BinOp::Ne, 5, BinOp::Eq, 5), None);
}

#[test]
fn parts_of_a_list_are_counted_with_repeats() {
    let part = |a: &[&str], b: &[&str]| is_strict_submultiset(&strings(a), &strings(b));
    assert!(part(&["a"], &["b", "a"]));
    assert!(part(&[], &["a"]));
    assert!(part(&["a", "a"], &["a", "b", "a"]));
    assert!(!part(&["a", "a"], &["a", "b", "c"]));
    assert!(!part(&["a", "b"], &["b", "a"]));
    assert!(!part(&["b", "a"], &["b"]));
    assert!(!part(&["a"], &["a"]));
}

#[test]
fn bounds_at_the_end_of_the_range_do_not_overflow() {
    assert_eq!(
        analyse(&and(bound(BinOp::Gt, i64::MAX), bound(BinOp::Lt, i64::MIN))),
        (false, true)
    );
}

// ---------------------------------------------------------------------
// Dates
// ---------------------------------------------------------------------

#[test]
fn weekdays_follow_the_calendar() {
    assert_eq!(
        weekday_of(&date(Weekday::Mon, Month::Feb, 29, 2024)),
        Some(Weekday::Thu)
    );
    assert_eq!(
        weekday_of(&date(Weekday::Mon, Month::Feb, 29, 2000)),
        Some(Weekday::Tue)
    );
    assert_eq!(
        weekday_of(&date(Weekday::Mon, Month::Jan, 1, 1)),
        Some(Weekday::Mon)
    );
    assert_eq!(
        weekday_of(&date(Weekday::Mon, Month::Dec, 31, 9999)),
        Some(Weekday::Fri)
    );
}

#[test]
fn days_that_do_not_exist_have_no_weekday() {
    assert_eq!(weekday_of(&date(Weekday::Mon, Month::Feb, 29, 2023)), None);
    assert_eq!(weekday_of(&date(Weekday::Mon, Month::Feb, 29, 1900)), None);
    assert_eq!(weekday_of(&date(Weekday::Mon, Month::Apr, 31, 2024)), None);
    assert_eq!(weekday_of(&date(Weekday::Mon, Month::Jan, 0, 2024)), None);
    assert_eq!(weekday_of(&date(Weekday::Mon, Month::Jan, 1, 10000)), None);
}

#[test]
fn dates_are_written_with_leading_zeros() {
    assert_eq!(
        text_of_date(&date(Weekday::Mon, Month::Mar, 5, 2024)),
        "2024-03-05"
    );
    assert_eq!(
        text_of_date(&date(Weekday::Mon, Month::Nov, 30, 33)),
        "0033-11-30"
    );
}

#[test]
fn dates_are_ordered_by_year_month_and_day() {
    let d = |month, day, year| date(Weekday::Mon, month, day, year);
    assert!(later(&d(Month::Jan, 1, 2025), &d(Month::Dec, 31, 2024)));
    assert!(later(&d(Month::Mar, 1, 2024), &d(Month::Feb, 29, 2024)));
    assert!(later(&d(Month::Mar, 2, 2024), &d(Month::Mar, 1, 2024)));
    assert!(!later(&d(Month::Mar, 1, 2024), &d(Month::Mar, 1, 2024)));
}

// ---------------------------------------------------------------------
// Names and texts
// ---------------------------------------------------------------------

#[test]
fn ordering_keeps_the_names_once() {
    let v = put_in_order(&strings(&["s390x", "aarch64", "s390x", "i686"]));
    assert_eq!(v, strings(&["aarch64", "i686", "s390x"]));
    assert_eq!(join(&v, ", "), "aarch64, i686, s390x");
    assert_eq!(join(&Vec::new(), ", "), "");
}

#[test]
fn sets_of_names_compare_by_what_they_hold() {
    let a = NameSet::of(&strings(&["x", "y", "x"]));
    let b = NameSet::of(&strings(&["y", "z", "x"]));
    assert_eq!(a.len(), 2);
    assert!(a.is_subset(&b));
    assert!(!b.is_subset(&a));
    let left = b.difference(&a);
    assert_eq!(left.len(), 1);
    assert!(left.contains(&"z".to_string()));
}

#[test]
fn numbers_are_written_in_decimal() {
    assert_eq!(count(0), "0");
    assert_eq!(number(340282366920938463463374607431768211455), u128::MAX.to_string());
    assert_eq!(signed_number(i64::MIN), i64::MIN.to_string());
    assert_eq!(signed_number(-7), "-7");
}

#[test]
fn texts_are_trimmed_of_any_whitespace() {
    assert_eq!(trimmed("\t a\u{2003}b \u{a0}\n"), "a\u{2003}b");
}

#[test]
fn words_are_parted_by_ascii_whitespace() {
    assert_eq!(split_words(" a\u{3000}bc\n"), vec!["a\u{3000}bc"]);
    assert_eq!(split_words("a \tb\n"), vec!["a", "b"]);
}

#[test]
fn slices_end_at_characters() {
    assert_eq!(slice_bytes("aéb", 1, 3), Some("é"));
    assert_eq!(slice_bytes("aéb", 2, 3), None);
    assert_eq!(slice_bytes("ab", 1, 3), None);
}

#[test]
fn texts_are_ordered_by_characters() {
    assert!(comes_before("a", "b"));
    assert!(comes_before("a", "aa"));
    assert!(comes_before("Z", "a"));
    assert!(!comes_before("a", "a"));
}

#[test]
fn lines_are_found_by_their_bytes() {
    // After the last line feed an empty line begins.
    assert_eq!(lines_of("ab\né\n"), vec![(0, 2), (3, 5), (6, 6)]);
}

#[test]
fn commands_are_split_at_operators() {
    let v = split_commands("mkdir -p a && cd a; make | tee log");
    assert_eq!(v.len(), 4);
    assert_eq!(v[0], strings(&["mkdir", "-p", "a"]));
    assert_eq!(v[3], strings(&["tee", "log"]));
}

// ---------------------------------------------------------------------
// Patterns of single rules
// ---------------------------------------------------------------------

#[test]
fn option_names_are_read_from_the_pattern() {
    assert_eq!(parse_with_pattern("0%{?with_python}"), Some("python"));
    assert_eq!(parse_with_pattern("0%{?with_}"), None);
    assert_eq!(parse_with_pattern("%{?with_python}"), None);
}

#[test]
fn build_tools_smell_by_name() {
    assert!(build_smell("gcc", false).is_some());
    assert!(build_smell("zlib-devel", false).is_some());
    assert!(build_smell("pkgconfig", true).is_some());
    assert!(build_smell("bash", false).is_none());
}

#[test]
fn wrapper_macros_are_suggested_by_command() {
    assert_eq!(suggest_macro(&strings(&["cmake", "."])), Some("cmake"));
    assert_eq!(suggest_macro(&strings(&["echo", "cmake"])), None);
}
