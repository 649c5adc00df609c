use mmpp::{parse_metric, pretty_print, Duration, Factor, Metric, Percentage};

fn test_cases() -> Vec<(&'static str, Metric, &'static str)> {
    vec![
        (
            "host(22CXRB3pZmu, loadavg5)",
            Metric::Host("22CXRB3pZmu".to_string(), "loadavg5".to_string()),
            "host(22CXRB3pZmu, loadavg5)",
        ),
        (
            "host ( 22CXRB3pZmu, cpu.user.percentage )",
            Metric::Host("22CXRB3pZmu".to_string(), "cpu.user.percentage".to_string()),
            "host(22CXRB3pZmu, cpu.user.percentage)",
        ),
        (
            "host('22CXRB3pZmu', memory.*)",
            Metric::Host("22CXRB3pZmu".to_string(), "memory.*".to_string()),
            "host(22CXRB3pZmu, memory.*)",
        ),
        (
            "host ( '22CXRB3pZmu', 'custom.foo.bar.*' )",
            Metric::Host("22CXRB3pZmu".to_string(), "custom.foo.bar.*".to_string()),
            "host(22CXRB3pZmu, custom.foo.bar.*)",
        ),
        (
            "host ( \"22CXRB3pZmu\",\"custom.foo.bar.*\")",
            Metric::Host("22CXRB3pZmu".to_string(), "custom.foo.bar.*".to_string()),
            "host(22CXRB3pZmu, custom.foo.bar.*)",
        ),
        (
            "service ( 'Blog', \"custom.access_count.*\")",
            Metric::Service("Blog".to_string(), "custom.access_count.*".to_string()),
            "service(Blog, custom.access_count.*)",
        ),
        (
            "role(Blog:db, memory.*)",
            Metric::Role("Blog".to_string(), "db".to_string(), "memory.*".to_string()),
            "role(Blog:db, memory.*)",
        ),
        (
            "role (  'Blog:  db' , 'memory.*'  ) ",
            Metric::Role("Blog".to_string(), "db".to_string(), "memory.*".to_string()),
            "role(Blog:db, memory.*)",
        ),
        (
            "roleSlots (  Blog:db , loadavg5  ) ",
            Metric::RoleSlot("Blog".to_string(), "db".to_string(), "loadavg5".to_string()),
            "roleSlots(Blog:db, loadavg5)",
        ),
        (
            "avg(group(host(22CXRB3pZmu, loadavg5), host(22CXRB3pZmv, loadavg5)))",
            Metric::Avg(Box::new(Metric::Group(vec![
                Metric::Host("22CXRB3pZmu".to_string(), "loadavg5".to_string()),
                Metric::Host("22CXRB3pZmv".to_string(), "loadavg5".to_string()),
            ]))),
            "avg(\n  group(\n    host(22CXRB3pZmu, loadavg5),\n    host(22CXRB3pZmv, loadavg5)\n  )\n)",
        ),
        (
            "max(role(Blog:db, loadavg5))",
            Metric::Max(Box::new(Metric::Role("Blog".to_string(), "db".to_string(), "loadavg5".to_string()))),
            "max(role(Blog:db, loadavg5))",
        ),
        (
            "min(role(Blog:db, loadavg5))",
            Metric::Min(Box::new(Metric::Role("Blog".to_string(), "db".to_string(), "loadavg5".to_string()))),
            "min(role(Blog:db, loadavg5))",
        ),
        (
            "product(group(service(Blog, foo.bar), service(Blog, foo.baz)))",
            Metric::Product(Box::new(Metric::Group(vec![
                Metric::Service("Blog".to_string(), "foo.bar".to_string()),
                Metric::Service("Blog".to_string(), "foo.baz".to_string()),
            ]))),
            "product(\n  group(\n    service(Blog, foo.bar),\n    service(Blog, foo.baz)\n  )\n)",
        ),
        (
            "diff(service(Blog, foo.bar), service(Blog, foo.baz))",
            Metric::Diff(
                Box::new(Metric::Service("Blog".to_string(), "foo.bar".to_string())),
                Box::new(Metric::Service("Blog".to_string(), "foo.baz".to_string())),
            ),
            "diff(\n  service(Blog, foo.bar),\n  service(Blog, foo.baz)\n)",
        ),
        (
            "divide(service(Blog, foo.bar), service(Blog, foo.baz))",
            Metric::Divide(
                Box::new(Metric::Service("Blog".to_string(), "foo.bar".to_string())),
                Box::new(Metric::Service("Blog".to_string(), "foo.baz".to_string())),
            ),
            "divide(\n  service(Blog, foo.bar),\n  service(Blog, foo.baz)\n)",
        ),
        (
            "scale ( service ( Blog , foo.bar ) , 10.0 )",
            Metric::Scale(
                Box::new(Metric::Service("Blog".to_string(), "foo.bar".to_string())),
                Factor::Double("10.0".to_string()),
            ),
            "scale(service(Blog, foo.bar), 10.0)",
        ),
        (
            "scale(scale(service('Blog', 'foo.bar'), 3.140e10), -31.4/6.25)",
            Metric::Scale(
                Box::new(Metric::Scale(
                    Box::new(Metric::Service("Blog".to_string(), "foo.bar".to_string())),
                    Factor::Double("3.140e10".to_string()),
                )),
                Factor::Fraction("-31.4".to_string(), "6.25".to_string()),
            ),
            "scale(\n  scale(service(Blog, foo.bar), 3.140e10),\n  -31.4/6.25\n)",
        ),
        (
            "offset ( service ( Blog , foo.bar ) , 10.0 )",
            Metric::Offset(
                Box::new(Metric::Service("Blog".to_string(), "foo.bar".to_string())),
                Factor::Double("10.0".to_string()),
            ),
            "offset(service(Blog, foo.bar), 10.0)",
        ),
        (
            "offset(offset(service('Blog', 'foo.bar'), 3.140e10), -31.4/6.25)",
            Metric::Offset(
                Box::new(Metric::Offset(
                    Box::new(Metric::Service("Blog".to_string(), "foo.bar".to_string())),
                    Factor::Double("3.140e10".to_string()),
                )),
                Factor::Fraction("-31.4".to_string(), "6.25".to_string()),
            ),
            "offset(\n  offset(service(Blog, foo.bar), 3.140e10),\n  -31.4/6.25\n)",
        ),
        (
            "percentile( role('Blog:db', 'loadavg5') , 75.5)",
            Metric::Percentile(
                Box::new(Metric::Role("Blog".to_string(), "db".to_string(), "loadavg5".to_string())),
                Percentage("75.5".to_string()),
            ),
            "percentile(role(Blog:db, loadavg5), 75.5)",
        ),
        (
            "timeShift(service(Blog, foo.bar), 1d)",
            Metric::TimeShift(
                Box::new(Metric::Service("Blog".to_string(), "foo.bar".to_string())),
                Duration("1d".to_string()),
            ),
            "timeShift(service(Blog, foo.bar), 1d)",
        ),
        (
            "timeShift(offset(service(Blog, foo.bar), 10.0), 1h)",
            Metric::TimeShift(
                Box::new(Metric::Offset(
                    Box::new(Metric::Service("Blog".to_string(), "foo.bar".to_string())),
                    Factor::Double("10.0".to_string()),
                )),
                Duration("1h".to_string()),
            ),
            "timeShift(\n  offset(service(Blog, foo.bar), 10.0),\n  1h\n)",
        ),
        (
            "movingAverage(service(Blog, foo.bar), 1d)",
            Metric::MovingAverage(
                Box::new(Metric::Service("Blog".to_string(), "foo.bar".to_string())),
                Duration("1d".to_string()),
            ),
            "movingAverage(service(Blog, foo.bar), 1d)",
        ),
        (
            "linearRegression(host(22CXRB3pZmu, filesystem.drive.used), 7d)",
            Metric::LinearRegression(
                Box::new(Metric::Host("22CXRB3pZmu".to_string(), "filesystem.drive.used".to_string())),
                Duration("7d".to_string()),
            ),
            "linearRegression(host(22CXRB3pZmu, filesystem.drive.used), 7d)",
        ),
        (
            "scale(timeLeftForecast(host(22CXRB3pZmu, filesystem.drive.used), 3mo, 2000000000000), 1/86400)",
            Metric::Scale(
                Box::new(Metric::TimeLeftForecast(
                    Box::new(Metric::Host("22CXRB3pZmu".to_string(), "filesystem.drive.used".to_string())),
                    Duration("3mo".to_string()),
                    Factor::Double("2000000000000".to_string()),
                )),
                Factor::Fraction("1".to_string(), "86400".to_string()),
            ),
            "scale(\n  timeLeftForecast(\n    host(22CXRB3pZmu, filesystem.drive.used),\n    3mo,\n    2000000000000\n  ),\n  1/86400\n)",
        ),
        (
            "group(host(22CXRB3pZmu, loadavg5), group(service(Blog, access_count.*), roleSlots(Blog:db, loadavg5)))",
            Metric::Group(vec![
                Metric::Host("22CXRB3pZmu".to_string(), "loadavg5".to_string()),
                Metric::Group(vec![
                    Metric::Service("Blog".to_string(), "access_count.*".to_string()),
                    Metric::RoleSlot("Blog".to_string(), "db".to_string(), "loadavg5".to_string()),
                ]),
            ]),
            "group(\n  host(22CXRB3pZmu, loadavg5),\n  group(\n    service(Blog, access_count.*),\n    roleSlots(Blog:db, loadavg5)\n  )\n)",
        ),
        (
            "stack(role(Blog:db, loadavg5))",
            Metric::Stack(Box::new(Metric::Role("Blog".to_string(), "db".to_string(), "loadavg5".to_string()))),
            "stack(role(Blog:db, loadavg5))",
        ),
        (
            "stack(group(role(Blog:db-master, loadavg5), role(Blog:db-slave, loadavg5)))",
            Metric::Stack(Box::new(Metric::Group(vec![
                Metric::Role("Blog".to_string(), "db-master".to_string(), "loadavg5".to_string()),
                Metric::Role("Blog".to_string(), "db-slave".to_string(), "loadavg5".to_string()),
            ]))),
            "stack(\n  group(\n    role(Blog:db-master, loadavg5),\n    role(Blog:db-slave, loadavg5)\n  )\n)",
        ),
    ]
}

#[test]
fn test_parse_metric() {
    for (source, metric, _) in test_cases() {
        let got = parse_metric(source);
        assert_eq!(got, Ok(metric));
    }
}

#[test]
fn test_pretty_print() {
    for (_, metric, pretty) in test_cases() {
        let got = pretty_print(metric);
        assert_eq!(got, pretty);
        assert_eq!(pretty_print(parse_metric(got.as_ref()).unwrap()), pretty);
    }
}
