use mmpp::builder::{convert_duration, convert_factor, convert_metrics, convert_percentage};
use mmpp::error::decimal;
use mmpp::parser::parse_text;
use mmpp::printer::{calc_depth, checked_depth, pretty_print_inner};
use mmpp::{
    format_metric, parse_metric, pretty_print, try_pretty_print, Duration, Expected, Factor, Metric,
    MetricParser, ParseError, ParseTree, Percentage, Rule, ShapeError, SyntaxError,
};

fn host(a: &str, b: &str) -> Metric {
    Metric::Host(a.to_string(), b.to_string())
}

fn service(a: &str, b: &str) -> Metric {
    Metric::Service(a.to_string(), b.to_string())
}

fn role(a: &str, b: &str, c: &str) -> Metric {
    Metric::Role(a.to_string(), b.to_string(), c.to_string())
}

fn syntax(position: usize, expected: Expected) -> ParseError {
    ParseError::Syntax(SyntaxError { position, expected })
}

fn token(rule: Rule, text: &str) -> ParseTree {
    ParseTree { rule, text: text.to_string(), children: vec![] }
}

fn node(rule: Rule, children: Vec<ParseTree>) -> ParseTree {
    ParseTree { rule, text: String::new(), children }
}

#[test]
fn quoting_is_normalized() {
    let want = host("a", "b");
    assert_eq!(parse_metric("host(a, b)"), Ok(host("a", "b")));
    assert_eq!(parse_metric("host('a', 'b')"), Ok(host("a", "b")));
    assert_eq!(parse_metric("host(\"a\",\"b\")"), Ok(host("a", "b")));
    assert_eq!(parse_metric(" \n host\t(  'a'\n,\r\n \"b\" )  \n"), Ok(want));
}

#[test]
fn quoted_identifier_keeps_any_character() {
    assert_eq!(parse_metric("host('a b(,)\"', \"it's\")"), Ok(host("a b(,)\"", "it's")));
    assert_eq!(parse_metric("host('', b)"), Ok(host("", "b")));
}

#[test]
fn role_is_split_and_trimmed() {
    assert_eq!(parse_metric("role(Blog:db, x)"), Ok(role("Blog", "db", "x")));
    assert_eq!(parse_metric("role('Blog:  db', x)"), Ok(role("Blog", "db", "x")));
    assert_eq!(parse_metric("role(' Blog \t:\n db  ', x)"), Ok(role("Blog", "db", "x")));
    assert_eq!(parse_metric("role('my blog:main db', x)"), Ok(role("my blog", "main db", "x")));
    assert_eq!(
        parse_metric("roleSlots(\"Blog:db\", x)"),
        Ok(Metric::RoleSlot("Blog".to_string(), "db".to_string(), "x".to_string()))
    );
}

#[test]
fn role_needs_one_colon_and_two_parts() {
    let bad = Err(syntax(5, Expected::RoleIdentifier));
    assert_eq!(parse_metric("role(Blog, x)"), bad);
    assert_eq!(parse_metric("role(Blog:, x)"), bad);
    assert_eq!(parse_metric("role(:db, x)"), bad);
    assert_eq!(parse_metric("role('Blogdb', x)"), bad);
    assert_eq!(parse_metric("role('a:b:c', x)"), bad);
    assert_eq!(parse_metric("role('  :db', x)"), bad);
    assert_eq!(parse_metric("role('Blog: ', x)"), bad);
    assert_eq!(parse_metric("role('Blog:db, x)"), bad);
    assert_eq!(parse_metric("role(Blog :db, x)"), bad);
}

#[test]
fn layout_turns_at_depth_three() {
    let inline = Metric::Avg(Box::new(role("Blog", "db", "loadavg5")));
    assert_eq!(pretty_print(inline), "avg(role(Blog:db, loadavg5))");
    let block = Metric::Avg(Box::new(Metric::Group(vec![host("a", "b"), host("c", "d")])));
    assert_eq!(
        pretty_print(block),
        "avg(\n  group(\n    host(a, b),\n    host(c, d)\n  )\n)"
    );
}

#[test]
fn two_argument_forms_take_three_lines() {
    let diff = Metric::Diff(
        Box::new(service("Blog", "foo.bar")),
        Box::new(service("Blog", "foo.baz")),
    );
    let text = pretty_print(diff);
    assert_eq!(text, "diff(\n  service(Blog, foo.bar),\n  service(Blog, foo.baz)\n)");
    assert_eq!(text.lines().count(), 4);
    let divide = Metric::Divide(Box::new(host("a", "b")), Box::new(host("c", "d")));
    assert_eq!(pretty_print(divide), "divide(\n  host(a, b),\n  host(c, d)\n)");
}

#[test]
fn group_of_one_is_written_over_lines() {
    assert_eq!(pretty_print(Metric::Group(vec![host("a", "b")])), "group(\n  host(a, b)\n)");
}

#[test]
fn shallow_sibling_is_laid_out_for_the_depth_of_its_place() {
    let deep = Metric::Avg(Box::new(Metric::Max(Box::new(host("a", "b")))));
    let shallow = Metric::Min(Box::new(host("c", "d")));
    let diff = Metric::Diff(Box::new(shallow), Box::new(deep));
    assert_eq!(
        pretty_print(diff),
        "diff(\n  min(\n    host(c, d)\n  ),\n  avg(\n    max(host(a, b))\n  )\n)"
    );
}

#[test]
fn shape_and_syntax_errors_differ() {
    let shape = parse_metric("scale(service(Blog, foo.bar), abc)");
    assert_eq!(shape, Err(ParseError::Shape(ShapeError::InvalidFactor)));
    assert!(shape.unwrap_err().is_shape());
    let arity = parse_metric("host(a)");
    assert_eq!(arity, Err(syntax(6, Expected::Comma)));
    assert!(arity.unwrap_err().is_syntax());
    let open = parse_metric("group(host(a,b)");
    assert_eq!(open, Err(syntax(15, Expected::Close)));
    assert!(!open.unwrap_err().is_shape());
}

#[test]
fn syntax_error_comes_before_shape_error() {
    assert_eq!(parse_metric("scale(host(a,b), abc"), Err(syntax(20, Expected::Close)));
    assert_eq!(
        parse_metric("diff(scale(host(a,b), abc), timeShift(host(a,b), 5))"),
        Err(ParseError::Shape(ShapeError::InvalidFactor))
    );
}

#[test]
fn each_syntax_error() {
    assert_eq!(parse_metric(""), Err(syntax(0, Expected::Function)));
    assert_eq!(parse_metric("   "), Err(syntax(3, Expected::Function)));
    assert_eq!(parse_metric("foo(a)"), Err(syntax(0, Expected::Function)));
    assert_eq!(parse_metric("hostx(a, b)"), Err(syntax(0, Expected::Function)));
    assert_eq!(parse_metric("Host(a, b)"), Err(syntax(0, Expected::Function)));
    assert_eq!(parse_metric("host a"), Err(syntax(5, Expected::Open)));
    assert_eq!(parse_metric("host"), Err(syntax(4, Expected::Open)));
    assert_eq!(parse_metric("host(a, b"), Err(syntax(9, Expected::Close)));
    assert_eq!(parse_metric("host(a, b, c)"), Err(syntax(9, Expected::Close)));
    assert_eq!(parse_metric("avg(host(a, b), host(c, d))"), Err(syntax(14, Expected::Close)));
    assert_eq!(parse_metric("diff(host(a, b))"), Err(syntax(15, Expected::Comma)));
    assert_eq!(parse_metric("host(,b)"), Err(syntax(5, Expected::Identifier)));
    assert_eq!(parse_metric("host(a/b, c)"), Err(syntax(6, Expected::Comma)));
    assert_eq!(parse_metric("host('a, b)"), Err(syntax(5, Expected::Identifier)));
    assert_eq!(parse_metric("role(Blog, x)"), Err(syntax(5, Expected::RoleIdentifier)));
    assert_eq!(parse_metric("scale(host(a,b), )"), Err(syntax(17, Expected::Argument)));
    assert_eq!(parse_metric("scale(host(a,b), 'x)"), Err(syntax(17, Expected::Argument)));
    assert_eq!(parse_metric("host(a,b) x"), Err(syntax(10, Expected::End)));
    assert_eq!(parse_metric("group()"), Err(syntax(6, Expected::Function)));
    assert_eq!(parse_metric("group(host(a,b),)"), Err(syntax(16, Expected::Function)));
    assert_eq!(parse_metric("avg(a)"), Err(syntax(4, Expected::Function)));
}

#[test]
fn each_shape_error() {
    assert_eq!(
        parse_metric("offset(host(a,b), 1d)"),
        Err(ParseError::Shape(ShapeError::InvalidFactor))
    );
    assert_eq!(
        parse_metric("percentile(host(a,b), 1d)"),
        Err(ParseError::Shape(ShapeError::InvalidPercentage))
    );
    assert_eq!(
        parse_metric("percentile(host(a,b), 1/2)"),
        Err(ParseError::Shape(ShapeError::InvalidPercentage))
    );
    assert_eq!(
        parse_metric("timeShift(host(a,b), 5)"),
        Err(ParseError::Shape(ShapeError::InvalidDuration))
    );
    assert_eq!(
        parse_metric("timeLeftForecast(host(a,b), 3mo, 'x')"),
        Err(ParseError::Shape(ShapeError::InvalidFactor))
    );
    assert_eq!(
        parse_metric("timeLeftForecast(host(a,b), 3, x)"),
        Err(ParseError::Shape(ShapeError::InvalidDuration))
    );
    assert_eq!(
        convert_metrics(&node(Rule::HostMetric, vec![token(Rule::Identifier, "a")])),
        Err(ShapeError::InvalidTree)
    );
    assert_eq!(convert_metrics(&node(Rule::GroupMetric, vec![])), Err(ShapeError::InvalidTree));
    assert_eq!(convert_metrics(&token(Rule::Identifier, "a")), Err(ShapeError::InvalidTree));
    assert_eq!(convert_factor(&node(Rule::Fraction, vec![])), Err(ShapeError::InvalidTree));
}

#[test]
fn number_shapes() {
    let scale = |text: &str| parse_metric(&format!("scale(host(a, b), {})", text));
    let double = |text: &str| {
        Ok(Metric::Scale(Box::new(host("a", "b")), Factor::Double(text.to_string())))
    };
    let fraction = |n: &str, d: &str| {
        Ok(Metric::Scale(
            Box::new(host("a", "b")),
            Factor::Fraction(n.to_string(), d.to_string()),
        ))
    };
    let invalid = Err(ParseError::Shape(ShapeError::InvalidFactor));
    assert_eq!(scale("10.0"), double("10.0"));
    assert_eq!(scale("3.140e10"), double("3.140e10"));
    assert_eq!(scale("-31.4"), double("-31.4"));
    assert_eq!(scale("+7"), double("+7"));
    assert_eq!(scale("1E-5"), double("1E-5"));
    assert_eq!(scale("1e+5"), double("1e+5"));
    assert_eq!(scale("0"), double("0"));
    assert_eq!(scale("-31.4/6.25"), fraction("-31.4", "6.25"));
    assert_eq!(scale("1/86400"), fraction("1", "86400"));
    assert_eq!(scale("1."), invalid);
    assert_eq!(scale(".5"), invalid);
    assert_eq!(scale("1e"), invalid);
    assert_eq!(scale("1e+"), invalid);
    assert_eq!(scale("-"), invalid);
    assert_eq!(scale("1.2.3"), invalid);
    assert_eq!(scale("1/2/3"), invalid);
    assert_eq!(scale("1/"), invalid);
    assert_eq!(scale("/2"), invalid);
    assert_eq!(scale("1d"), invalid);
    assert_eq!(scale("'10.0'"), invalid);
    assert_eq!(scale("1 / 2"), Err(syntax(20, Expected::Close)));
}

#[test]
fn duration_shapes() {
    let shift = |text: &str| parse_metric(&format!("timeShift(host(a, b), {})", text));
    let ok = |text: &str| {
        Ok(Metric::TimeShift(Box::new(host("a", "b")), Duration(text.to_string())))
    };
    let invalid = Err(ParseError::Shape(ShapeError::InvalidDuration));
    assert_eq!(shift("1d"), ok("1d"));
    assert_eq!(shift("12h"), ok("12h"));
    assert_eq!(shift("3mo"), ok("3mo"));
    assert_eq!(shift("1e"), ok("1e"));
    assert_eq!(shift("d"), invalid);
    assert_eq!(shift("1"), invalid);
    assert_eq!(shift("1d2"), invalid);
    assert_eq!(shift("1.5h"), invalid);
    assert_eq!(shift("-1d"), invalid);
}

#[test]
fn end_to_end_forecast() {
    let source = "timeLeftForecast(host(22CXRB3pZmu, filesystem.drive.used), 3mo, 2000000000000)";
    let want = Metric::TimeLeftForecast(
        Box::new(host("22CXRB3pZmu", "filesystem.drive.used")),
        Duration("3mo".to_string()),
        Factor::Double("2000000000000".to_string()),
    );
    assert_eq!(parse_metric(source), Ok(want));
    let text = pretty_print(parse_metric(source).unwrap());
    assert_eq!(
        text,
        "timeLeftForecast(\n  host(22CXRB3pZmu, filesystem.drive.used),\n  3mo,\n  2000000000000\n)"
    );
    assert_eq!(text.lines().count(), 5);
}

#[test]
fn rendering_round_trips() {
    let build = || {
        Metric::Group(vec![
            Metric::Percentile(
                Box::new(Metric::Divide(
                    Box::new(role("Blog", "db-master", "cpu.*")),
                    Box::new(Metric::MovingAverage(
                        Box::new(service("Blog", "foo_bar")),
                        Duration("1h".to_string()),
                    )),
                )),
                Percentage("99.9".to_string()),
            ),
            Metric::TimeLeftForecast(
                Box::new(Metric::Offset(
                    Box::new(host("h1", "disk")),
                    Factor::Fraction("-1".to_string(), "3e2".to_string()),
                )),
                Duration("3mo".to_string()),
                Factor::Double("+2.5".to_string()),
            ),
            Metric::Stack(Box::new(Metric::LinearRegression(
                Box::new(Metric::RoleSlot("A".to_string(), "b".to_string(), "c".to_string())),
                Duration("7d".to_string()),
            ))),
        ])
    };
    let text = pretty_print(build());
    assert_eq!(parse_metric(&text), Ok(build()));
    assert_eq!(pretty_print(parse_metric(&text).unwrap()), text);
}

#[test]
fn depth_counts_the_longest_path() {
    assert_eq!(calc_depth(&host("a", "b")), 1);
    assert_eq!(calc_depth(&Metric::Avg(Box::new(host("a", "b")))), 2);
    let diff = Metric::Diff(
        Box::new(host("a", "b")),
        Box::new(Metric::Scale(Box::new(host("a", "b")), Factor::Double("1".to_string()))),
    );
    assert_eq!(calc_depth(&diff), 3);
    let group = Metric::Group(vec![host("a", "b"), diff, host("c", "d")]);
    assert_eq!(calc_depth(&group), 4);
    assert_eq!(checked_depth(&group, 4), Some(4));
    assert_eq!(checked_depth(&group, 3), None);
    assert_eq!(checked_depth(&host("a", "b"), 0), None);
}

#[test]
fn empty_group_is_not_printed() {
    assert_eq!(try_pretty_print(Metric::Group(vec![])), None);
    assert_eq!(try_pretty_print(Metric::Avg(Box::new(Metric::Group(vec![])))), None);
    assert_eq!(checked_depth(&Metric::Group(vec![]), 10), None);
    assert_eq!(
        try_pretty_print(Metric::Max(Box::new(host("a", "b")))),
        Some("max(host(a, b))".to_string())
    );
}

#[test]
fn inner_printing_indents_by_two_spaces() {
    let metric = Metric::Scale(
        Box::new(host("a", "b")),
        Factor::Fraction("1".to_string(), "2".to_string()),
    );
    assert_eq!(pretty_print_inner(&metric, 2, 0), "scale(host(a, b), 1/2)");
    assert_eq!(pretty_print_inner(&metric, 2, 2), "    scale(host(a, b), 1/2)");
    assert_eq!(
        pretty_print_inner(&metric, 3, 1),
        "  scale(\n    host(a, b),\n    1/2\n  )"
    );
}

#[test]
fn parse_tree_mirrors_the_text() {
    let tree = MetricParser::parse_str("scale(role('Blog: db', x), 1/2)").unwrap();
    let want = node(
        Rule::ScaleMetric,
        vec![
            node(
                Rule::RoleMetric,
                vec![
                    node(
                        Rule::RoleIdentifier,
                        vec![token(Rule::Identifier, "Blog"), token(Rule::Identifier, "db")],
                    ),
                    token(Rule::Identifier, "x"),
                ],
            ),
            ParseTree {
                rule: Rule::Fraction,
                text: "1/2".to_string(),
                children: vec![token(Rule::Double, "1"), token(Rule::Double, "2")],
            },
        ],
    );
    assert_eq!(tree, want);
    assert_eq!(
        parse_text("timeShift(host(a, b), 3mo)").unwrap().children[1],
        token(Rule::Duration, "3mo")
    );
    assert_eq!(
        parse_text("timeShift(host(a, b), abc)").unwrap().children[1],
        token(Rule::Identifier, "abc")
    );
    assert_eq!(parse_text("host(a"), Err(SyntaxError { position: 6, expected: Expected::Comma }));
}

#[test]
fn literals_convert_by_their_rule() {
    assert_eq!(convert_factor(&token(Rule::Double, "1.5")), Ok(Factor::Double("1.5".to_string())));
    assert_eq!(convert_factor(&token(Rule::Duration, "1d")), Err(ShapeError::InvalidFactor));
    assert_eq!(
        convert_percentage(&token(Rule::Double, "75.5")),
        Ok(Percentage("75.5".to_string()))
    );
    assert_eq!(
        convert_percentage(&token(Rule::Identifier, "x")),
        Err(ShapeError::InvalidPercentage)
    );
    assert_eq!(convert_duration(&token(Rule::Duration, "1d")), Ok(Duration("1d".to_string())));
    assert_eq!(convert_duration(&token(Rule::Double, "1")), Err(ShapeError::InvalidDuration));
}

#[test]
fn messages_say_what_and_where() {
    assert_eq!(
        parse_metric("host(a)").unwrap_err().message(),
        "syntax error at offset 6: expected `,`"
    );
    assert_eq!(
        parse_metric("").unwrap_err().message(),
        "syntax error at offset 0: expected a function name"
    );
    assert_eq!(
        parse_metric("scale(host(a, b), abc)").unwrap_err().message(),
        "invalid factor"
    );
    assert_eq!(ParseError::Shape(ShapeError::InvalidPercentage).message(), "invalid percentage");
    assert_eq!(ParseError::Shape(ShapeError::InvalidDuration).message(), "invalid duration");
    assert_eq!(ParseError::Shape(ShapeError::InvalidTree).message(), "invalid parse tree");
    assert_eq!(
        syntax(120, Expected::End).message(),
        "syntax error at offset 120: expected the end of the input"
    );
    assert_eq!(decimal(0), "0");
    assert_eq!(decimal(1234567890), "1234567890");
}

#[test]
fn offsets_count_characters() {
    assert_eq!(parse_metric("host('é', b) ü"), Err(syntax(13, Expected::End)));
    assert_eq!(parse_metric("host('日本', 語)"), Err(syntax(11, Expected::Identifier)));
    assert_eq!(parse_metric("host('日本', '語')"), Ok(host("日本", "語")));
}

#[test]
fn formatting_parses_and_prints() {
    assert_eq!(
        format_metric(" max( group(host('a',b) ,service( c, \"d\" )) )"),
        Ok("max(\n  group(\n    host(a, b),\n    service(c, d)\n  )\n)".to_string())
    );
    assert_eq!(format_metric("max(host(a, b)"), Err(syntax(14, Expected::Close)));
    assert_eq!(
        format_metric("percentile(host(a, b), x)"),
        Err(ParseError::Shape(ShapeError::InvalidPercentage))
    );
    let once = format_metric("scale(offset(role(A:b, c), 1/2), -3e4)").unwrap();
    assert_eq!(once, "scale(\n  offset(role(A:b, c), 1/2),\n  -3e4\n)");
    assert_eq!(format_metric(&once), Ok(once.clone()));
}

#[test]
fn copies_are_equal() {
    let metric = Metric::Group(vec![
        Metric::Scale(Box::new(host("a", "b")), Factor::Fraction("1".to_string(), "2".to_string())),
        Metric::Percentile(Box::new(role("A", "b", "c")), Percentage("5".to_string())),
    ]);
    assert_eq!(metric.clone(), metric);
    assert_eq!(metric.duplicate(), metric);
    assert_eq!(pretty_print(metric.clone()), pretty_print(metric));
}

#[test]
fn deep_nesting_round_trips() {
    let mut metric = host("a", "b");
    let mut source = String::from("host(a,b)");
    for _ in 0..200 {
        metric = Metric::Avg(Box::new(metric));
        source = format!("avg({})", source);
    }
    assert_eq!(parse_metric(&source), Ok(metric.duplicate()));
    let text = pretty_print(metric);
    assert_eq!(text.lines().count(), 399);
    assert_eq!(format_metric(&text), Ok(text.clone()));
}

#[test]
fn names_that_need_quotes_are_printed_bare() {
    let metric = parse_metric("host('a b', c)").unwrap();
    assert_eq!(metric, host("a b", "c"));
    let text = pretty_print(metric);
    assert_eq!(text, "host(a b, c)");
    assert_eq!(parse_metric(&text), Err(syntax(7, Expected::Comma)));
}

#[test]
fn whitespace_between_tokens_is_insignificant() {
    let want = Metric::TimeLeftForecast(
        Box::new(Metric::Diff(Box::new(host("a", "b")), Box::new(service("c", "d")))),
        Duration("3mo".to_string()),
        Factor::Fraction("1".to_string(), "2".to_string()),
    );
    let dense = "timeLeftForecast(diff(host(a,b),service(c,d)),3mo,1/2)";
    let loose = "\n timeLeftForecast \t(\r\n diff ( host ( a , b ) , service(c\n,\nd) )\n, 3mo ,\t1/2 ) ";
    assert_eq!(parse_metric(dense).as_ref(), Ok(&want));
    assert_eq!(parse_metric(loose).as_ref(), Ok(&want));
    assert_eq!(format_metric(dense), format_metric(loose));
}
