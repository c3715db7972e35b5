use tapssp::filter::{parse, CompileError, Expr, Op, Pred};
use tapssp::number::Number;

fn read(s: &str) -> Option<Number> {
    s.parse::<f64>().ok().map(|x| Number { bits: x.to_bits() })
}

fn texts(fields: &[&str]) -> Vec<String> {
    fields.iter().map(|s| s.to_string()).collect()
}

fn holds(expr: &Expr, fields: &[&str]) -> bool {
    let rec = texts(fields);
    let numbers: Vec<Option<Number>> = rec.iter().map(|s| read(s)).collect();
    let literals: Vec<Option<Number>> = expr.literals().iter().map(|s| read(s)).collect();
    expr.eval(&rec, &numbers, &literals)
}

fn leaf(col: usize, op: Op, val: &str) -> Expr {
    Expr::Single(Pred::new(col, op, val.to_string()))
}

fn both(l: Expr, r: Expr) -> Expr {
    Expr::And(Box::new(l), Box::new(r))
}

fn either(l: Expr, r: Expr) -> Expr {
    Expr::Or(Box::new(l), Box::new(r))
}

fn abc() -> Vec<String> {
    texts(&["a", "b", "c"])
}

#[test]
fn equality_on_a_known_column_compiles() {
    let headers = texts(&["id", "name", "score"]);
    for (i, c) in ["id", "name", "score"].iter().enumerate() {
        for x in ["1", "x", "", "a b", ">=5", "<", "!=", "a ANDb", "OR", "(x", "-3.5e2"] {
            let text = format!("{} == {}", c, x);
            assert_eq!(parse(&text, &headers), Ok(leaf(i, Op::Eq, x)), "{}", text);
        }
    }
}

#[test]
fn equality_on_an_unknown_column_names_it() {
    let headers = texts(&["id", "name"]);
    for c in ["score", "ID", "Name", "i d", "", "idx"] {
        for x in ["1", "x", ">=5"] {
            let text = format!("{} == {}", c, x);
            assert_eq!(
                parse(&text, &headers),
                Err(CompileError::UnknownColumn(c.to_string())),
                "{}",
                text
            );
        }
    }
}

#[test]
fn a_separator_in_the_literal_splits_the_text() {
    let headers = texts(&["a"]);
    assert_eq!(parse("a == 1 OR zzz", &headers), Err(CompileError::Syntax("zzz".to_string())));
    assert_eq!(parse("a == x AND b", &headers), Err(CompileError::Syntax("b".to_string())));
    assert_eq!(parse("a>b == 1", &headers), Ok(leaf(0, Op::Gt, "b == 1")));
}

#[test]
fn the_first_column_of_a_name_is_taken() {
    let headers = texts(&["a", "b", "a"]);
    assert_eq!(parse("a == 1", &headers), Ok(leaf(0, Op::Eq, "1")));
    assert_eq!(parse("b == 1", &headers), Ok(leaf(1, Op::Eq, "1")));
}

#[test]
fn text_without_operator_is_a_syntax_error() {
    let headers = texts(&["justtext", "a"]);
    assert_eq!(parse("justtext", &headers), Err(CompileError::Syntax("justtext".to_string())));
    assert_eq!(parse("a = 1", &headers), Err(CompileError::Syntax("a = 1".to_string())));
    assert_eq!(parse("  a !  ", &headers), Err(CompileError::Syntax("a !".to_string())));
}

#[test]
fn empty_text_is_a_syntax_error() {
    let headers = texts(&["a"]);
    assert_eq!(parse("", &headers), Err(CompileError::Syntax(String::new())));
    assert_eq!(parse("   ", &headers), Err(CompileError::Syntax(String::new())));
    assert_eq!(parse("()", &headers), Err(CompileError::Syntax(String::new())));
    assert_eq!(parse("( ( ) )", &headers), Err(CompileError::Syntax(String::new())));
}

#[test]
fn syntax_error_carries_the_part_without_operator() {
    let headers = abc();
    assert_eq!(parse("a==1 AND b", &headers), Err(CompileError::Syntax("b".to_string())));
    assert_eq!(parse("a==1 OR  zzz ", &headers), Err(CompileError::Syntax("zzz".to_string())));
    assert_eq!(parse("(a==1 AND (b))", &headers), Err(CompileError::Syntax("b".to_string())));
}

#[test]
fn the_error_of_the_left_part_comes_first() {
    let headers = abc();
    assert_eq!(parse("x==1 OR zzz", &headers), Err(CompileError::UnknownColumn("x".to_string())));
    assert_eq!(parse("zzz AND x==1", &headers), Err(CompileError::Syntax("zzz".to_string())));
    assert_eq!(
        parse("a==1 AND y==1 OR x==1", &headers),
        Err(CompileError::UnknownColumn("y".to_string()))
    );
}

#[test]
fn or_binds_weaker_than_and() {
    let headers = abc();
    let expr = parse("a==1 OR b==2 AND c==3", &headers).unwrap();
    assert_eq!(
        expr,
        either(leaf(0, Op::Eq, "1"), both(leaf(1, Op::Eq, "2"), leaf(2, Op::Eq, "3")))
    );
    // True under this grouping, false under (a==1 OR b==2) AND c==3.
    assert!(holds(&expr, &["1", "0", "0"]));
    assert!(holds(&expr, &["1", "2", "0"]));
    // False under both groupings, and true under both.
    assert!(!holds(&expr, &["0", "2", "0"]));
    assert!(holds(&expr, &["0", "2", "3"]));
    let other = parse("a==1 AND b==2 OR c==3", &headers).unwrap();
    assert_eq!(
        other,
        either(both(leaf(0, Op::Eq, "1"), leaf(1, Op::Eq, "2")), leaf(2, Op::Eq, "3"))
    );
    // True under this grouping, false under a==1 AND (b==2 OR c==3).
    assert!(holds(&other, &["0", "0", "3"]));
}

#[test]
fn parentheses_override_the_precedence() {
    let headers = abc();
    let grouped = parse("(a==1 OR b==2) AND c==3", &headers).unwrap();
    let plain = parse("a==1 OR b==2 AND c==3", &headers).unwrap();
    assert_eq!(
        grouped,
        both(either(leaf(0, Op::Eq, "1"), leaf(1, Op::Eq, "2")), leaf(2, Op::Eq, "3"))
    );
    assert!(!holds(&grouped, &["1", "0", "0"]));
    assert!(holds(&plain, &["1", "0", "0"]));
    assert!(holds(&grouped, &["1", "0", "3"]));
    assert!(holds(&grouped, &["0", "2", "3"]));
    assert!(!holds(&grouped, &["0", "0", "3"]));
}

#[test]
fn alternatives_and_conditions_group_to_the_left() {
    let headers = abc();
    assert_eq!(
        parse("a==1 OR b==2 OR c==3", &headers),
        Ok(either(either(leaf(0, Op::Eq, "1"), leaf(1, Op::Eq, "2")), leaf(2, Op::Eq, "3")))
    );
    assert_eq!(
        parse("a==1 AND b==2 AND c==3", &headers),
        Ok(both(both(leaf(0, Op::Eq, "1"), leaf(1, Op::Eq, "2")), leaf(2, Op::Eq, "3")))
    );
    assert_eq!(
        parse("a==1 AND b==2 OR c==3 AND a==4 OR b==5", &headers),
        Ok(either(
            either(
                both(leaf(0, Op::Eq, "1"), leaf(1, Op::Eq, "2")),
                both(leaf(2, Op::Eq, "3"), leaf(0, Op::Eq, "4"))
            ),
            leaf(1, Op::Eq, "5")
        ))
    );
    let chain = parse("a==1 OR b==2 OR c==3", &headers).unwrap();
    assert!(holds(&chain, &["0", "0", "3"]));
    assert!(holds(&chain, &["0", "2", "0"]));
    assert!(holds(&chain, &["1", "0", "0"]));
    assert!(!holds(&chain, &["0", "0", "0"]));
}

#[test]
fn without_parentheses_no_alternative_stands_below_a_condition() {
    fn conjunction(e: &Expr) -> bool {
        match e {
            Expr::Single(_) => true,
            Expr::And(l, r) => conjunction(l) && matches!(**r, Expr::Single(_)),
            Expr::Or(_, _) => false,
        }
    }
    fn disjunction(e: &Expr) -> bool {
        match e {
            Expr::Or(l, r) => disjunction(l) && conjunction(r),
            _ => conjunction(e),
        }
    }
    let headers = abc();
    for text in [
        "a==1",
        "a==1 AND b==2",
        "a==1 OR b==2",
        "a==1 OR b==2 AND c==3 OR a==4 AND b==5 AND c==6",
        "a==1 AND b==2 AND c==3 OR a==4",
    ] {
        assert!(disjunction(&parse(text, &headers).unwrap()), "{}", text);
    }
    assert!(!disjunction(&parse("a==1 AND (b==2 OR c==3)", &headers).unwrap()));
}

#[test]
fn groups_nest() {
    let headers = abc();
    assert_eq!(
        parse("((a==1))", &headers),
        Ok(leaf(0, Op::Eq, "1"))
    );
    assert_eq!(
        parse(" ( a==1 AND ( b==2 OR ( c==3 AND a==4 ) ) ) ", &headers),
        Ok(both(
            leaf(0, Op::Eq, "1"),
            either(leaf(1, Op::Eq, "2"), both(leaf(2, Op::Eq, "3"), leaf(0, Op::Eq, "4")))
        ))
    );
    assert_eq!(
        parse("(a==1 OR b==2) AND (b==3 OR c==4)", &headers),
        Ok(both(
            either(leaf(0, Op::Eq, "1"), leaf(1, Op::Eq, "2")),
            either(leaf(1, Op::Eq, "3"), leaf(2, Op::Eq, "4"))
        ))
    );
}

#[test]
fn parentheses_around_a_filter_change_nothing() {
    let headers = abc();
    for t in [
        "a==1",
        "a==1 OR b==2 AND c==3",
        "(a==1 OR b==2) AND c==3",
        " a > 1 ",
        "zzz",
        "x == 1",
        "",
        "a == (1",
    ] {
        assert_eq!(parse(&format!("({})", t), &headers), parse(t, &headers), "{:?}", t);
        assert_eq!(parse(&format!(" (({})) ", t), &headers), parse(t, &headers), "{:?}", t);
    }
    // A parenthesis that closes what the text did not open lets a separator out.
    assert_eq!(parse("a==1) OR (b==2", &headers), Ok(leaf(0, Op::Eq, "1) OR (b==2")));
    assert_eq!(
        parse("(a==1) OR (b==2)", &headers),
        Ok(either(leaf(0, Op::Eq, "1"), leaf(1, Op::Eq, "2")))
    );
}

#[test]
fn separators_inside_parentheses_do_not_split() {
    let headers = abc();
    // The only ` OR ` stands at depth one, so the text is one comparison.
    assert_eq!(parse("a == (x OR y)z", &headers), Ok(leaf(0, Op::Eq, "(x OR y)z")));
    // Behind a closing parenthesis without an opening one the depth is not zero.
    assert_eq!(parse("a==1) OR (b==2", &headers), Ok(leaf(0, Op::Eq, "1) OR (b==2")));
    // An unbalanced text that ends where a group would end is opened as a group.
    assert_eq!(
        parse("((a==1)", &headers),
        Err(CompileError::UnknownColumn("(a".to_string()))
    );
    assert_eq!(parse("(a)", &headers), Err(CompileError::Syntax("a".to_string())));
}

#[test]
fn separators_need_their_spaces_and_their_case() {
    let headers = texts(&["a", "b", "ANDY", "ORB"]);
    assert_eq!(parse("a==1 or b==2", &headers), Ok(leaf(0, Op::Eq, "1 or b==2")));
    assert_eq!(parse("a==1 and b==2", &headers), Ok(leaf(0, Op::Eq, "1 and b==2")));
    assert_eq!(parse("a==1 OR\tb==2", &headers), Ok(leaf(0, Op::Eq, "1 OR\tb==2")));
    assert_eq!(parse("a==1OR b==2", &headers), Ok(leaf(0, Op::Eq, "1OR b==2")));
    assert_eq!(parse("ANDY == 1", &headers), Ok(leaf(2, Op::Eq, "1")));
    assert_eq!(parse("ORB == ANDY", &headers), Ok(leaf(3, Op::Eq, "ANDY")));
    assert_eq!(
        parse("ANDY == 1 AND ORB == 2", &headers),
        Ok(both(leaf(2, Op::Eq, "1"), leaf(3, Op::Eq, "2")))
    );
}

#[test]
fn each_operator_is_recognised() {
    let headers = texts(&["a"]);
    assert_eq!(parse("a == 1", &headers), Ok(leaf(0, Op::Eq, "1")));
    assert_eq!(parse("a != 1", &headers), Ok(leaf(0, Op::Ne, "1")));
    assert_eq!(parse("a < 1", &headers), Ok(leaf(0, Op::Lt, "1")));
    assert_eq!(parse("a <= 1", &headers), Ok(leaf(0, Op::Le, "1")));
    assert_eq!(parse("a > 1", &headers), Ok(leaf(0, Op::Gt, "1")));
    assert_eq!(parse("a >= 1", &headers), Ok(leaf(0, Op::Ge, "1")));
    assert_eq!(parse("a>=1", &headers), Ok(leaf(0, Op::Ge, "1")));
    assert_eq!(parse("a<=1", &headers), Ok(leaf(0, Op::Le, "1")));
    assert_eq!(parse("a>1", &headers), Ok(leaf(0, Op::Gt, "1")));
    assert_eq!(parse("a<", &headers), Ok(leaf(0, Op::Lt, "")));
}

#[test]
fn the_first_operator_in_the_text_splits_it() {
    let headers = texts(&["a"]);
    assert_eq!(parse("a > =1", &headers), Ok(leaf(0, Op::Gt, "=1")));
    assert_eq!(parse("a == b >= c", &headers), Ok(leaf(0, Op::Eq, "b >= c")));
    assert_eq!(parse("a < 1 == x", &headers), Ok(leaf(0, Op::Lt, "1 == x")));
    assert_eq!(parse("a != b == c", &headers), Ok(leaf(0, Op::Ne, "b == c")));
    assert_eq!(parse("a === 1", &headers), Ok(leaf(0, Op::Eq, "= 1")));
    assert_eq!(parse("a >== 1", &headers), Ok(leaf(0, Op::Ge, "= 1")));
    assert_eq!(parse("a =< 1", &headers), Err(CompileError::UnknownColumn("a =".to_string())));
    assert_eq!(parse("a !> 1", &headers), Err(CompileError::UnknownColumn("a !".to_string())));
}

#[test]
fn quotes_are_stripped_from_the_literal() {
    let headers = texts(&["col"]);
    let bare = parse("col == hello", &headers).unwrap();
    assert_eq!(parse("col == \"hello\"", &headers).unwrap(), bare);
    assert_eq!(parse("col == 'hello'", &headers).unwrap(), bare);
    assert_eq!(bare, leaf(0, Op::Eq, "hello"));
    match &bare {
        Expr::Single(p) => {
            assert_eq!(p.val(), "hello");
            assert_eq!(p.col(), 0);
            assert_eq!(p.op(), Op::Eq);
        }
        _ => panic!("expected one comparison"),
    }
}

#[test]
fn stripping_takes_every_quote_at_the_ends_and_none_inside() {
    let headers = texts(&["col"]);
    assert_eq!(parse("col == \"\"hello\"", &headers), Ok(leaf(0, Op::Eq, "hello")));
    assert_eq!(parse("col == \"hello", &headers), Ok(leaf(0, Op::Eq, "hello")));
    assert_eq!(parse("col == '\"hello\"'", &headers), Ok(leaf(0, Op::Eq, "\"hello\"")));
    assert_eq!(parse("col == \"'hello'\"", &headers), Ok(leaf(0, Op::Eq, "hello")));
    assert_eq!(parse("col == \" hello \"", &headers), Ok(leaf(0, Op::Eq, " hello ")));
    assert_eq!(parse("col == it's", &headers), Ok(leaf(0, Op::Eq, "it's")));
    assert_eq!(parse("col == \"\"", &headers), Ok(leaf(0, Op::Eq, "")));
    assert_eq!(parse("\"col\" == 1", &headers), Err(CompileError::UnknownColumn("\"col\"".to_string())));
}

#[test]
fn white_space_around_the_parts_is_dropped() {
    let headers = texts(&["a", "b c"]);
    assert_eq!(parse("  a   ==   1  ", &headers), Ok(leaf(0, Op::Eq, "1")));
    assert_eq!(parse("\ta\n==\r\n1\u{a0}", &headers), Ok(leaf(0, Op::Eq, "1")));
    assert_eq!(parse("\u{2003}a\u{3000}==\u{2028}1\u{85}", &headers), Ok(leaf(0, Op::Eq, "1")));
    assert_eq!(parse(" b c == x  y ", &headers), Ok(leaf(1, Op::Eq, "x  y")));
    assert_eq!(
        parse("\u{200b}a == 1", &headers),
        Err(CompileError::UnknownColumn("\u{200b}a".to_string()))
    );
}

#[test]
fn column_names_are_matched_exactly() {
    let headers = texts(&["Name", "name", "näme"]);
    assert_eq!(parse("name == x", &headers), Ok(leaf(1, Op::Eq, "x")));
    assert_eq!(parse("Name == x", &headers), Ok(leaf(0, Op::Eq, "x")));
    assert_eq!(parse("näme == ü OR name == é", &headers), Ok(either(leaf(2, Op::Eq, "ü"), leaf(1, Op::Eq, "é"))));
    assert_eq!(parse("NAME == x", &headers), Err(CompileError::UnknownColumn("NAME".to_string())));
    assert_eq!(parse("nam == x", &headers), Err(CompileError::UnknownColumn("nam".to_string())));
}

#[test]
fn every_column_of_a_compiled_filter_is_in_the_table() {
    fn check(e: &Expr, n: usize) {
        match e {
            Expr::Single(p) => assert!(p.col() < n),
            Expr::And(l, r) | Expr::Or(l, r) => {
                check(l, n);
                check(r, n);
            }
        }
    }
    let headers = abc();
    for text in ["a==1", "c>2 AND b<1", "(c==1 OR a==2) AND (b!=3 OR c<=4)"] {
        check(&parse(text, &headers).unwrap(), headers.len());
    }
}

#[test]
fn compiling_twice_gives_the_same_filter() {
    let headers = abc();
    let rows = [["1", "2", "3"], ["0", "2", "0"], ["x", "", "3.0"], ["1e0", "abc", "-3"]];
    for text in ["a==1 OR b==2 AND c==3", "(a>0 OR b==abc) AND c<=3", "a != x", "zzz", "d == 1"] {
        let first = parse(text, &headers);
        let second = parse(text, &headers);
        assert_eq!(first, second);
        if let (Ok(f), Ok(s)) = (&first, &second) {
            for row in rows.iter() {
                assert_eq!(holds(f, &row[..]), holds(s, &row[..]));
            }
        }
    }
}

#[test]
fn score_filter_keeps_only_the_first_row() {
    let headers = texts(&["id", "score"]);
    let expr = parse("score >= 0", &headers).unwrap();
    assert_eq!(expr, leaf(1, Op::Ge, "0"));
    let rows = [["1", "10"], ["2", "-5"], ["3", "abc"]];
    let kept: Vec<&str> = rows.iter().filter(|r| holds(&expr, &r[..])).map(|r| r[0]).collect();
    assert_eq!(kept, vec!["1"]);
}

#[test]
fn the_message_names_the_kind_and_the_text() {
    let headers = texts(&["a"]);
    assert_eq!(parse("b == 1", &headers).unwrap_err().message(), "unknown column: b");
    assert_eq!(
        parse("justtext", &headers).unwrap_err().message(),
        "expected comparison operator: justtext"
    );
}
