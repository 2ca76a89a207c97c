use std::sync::Arc;

use datafusion_distributed::benchmark_queries::{
    count_boundary_tasks, get_queries, query_file_name, query_text, statements, BenchmarkError,
    Dataset, RunOpt, Statement,
};
use datafusion_distributed::benchmark_run::{
    comparison_header, comparison_line, comparison_report, heading_lines, heading_start,
    BenchmarkRun, Change, Comparison, Elapsed, QueryIter, RunContext,
};
use datafusion_distributed::data_type::DataType;
use datafusion_distributed::plan::{
    CardinalityEffect, InputStage, Operator, OperatorKind, PartitionRule, PartitionScheme,
    PlanNode, QueryId,
};
use datafusion_distributed::text::{push_decimal, split, text_contains, trim};
use datafusion_distributed::tpch::{get_tpch_table_schema, tpch_table_names, PrepareTpchOpt};

fn texts(list: &[&str]) -> Vec<String> {
    list.iter().map(|text| text.to_string()).collect()
}

#[test]
fn tables_have_their_columns() {
    let schema = get_tpch_table_schema("lineitem");
    assert_eq!(schema.fields.len(), 16);
    assert_eq!(*schema.fields[0].name, "l_orderkey");
    assert_eq!(schema.fields[0].data_type, DataType::Int64);
    assert_eq!(*schema.fields[10].name, "l_shipdate");
    assert_eq!(schema.fields[10].data_type, DataType::Date32);
    assert_eq!(schema.fields[4].data_type, DataType::Decimal128(15, 2));
    assert!(schema.fields.iter().all(|field| !field.nullable));

    let counts: Vec<usize> = tpch_table_names()
        .iter()
        .map(|table| get_tpch_table_schema(table).fields.len())
        .collect();
    assert_eq!(counts, vec![9, 7, 5, 8, 9, 16, 4, 3]);
    assert_eq!(*get_tpch_table_schema("region").fields[2].name, "r_comment");
    assert_eq!(
        get_tpch_table_schema("partsupp").fields[2].data_type,
        DataType::Int32
    );
}

#[test]
fn conversions_follow_the_options() {
    let options = PrepareTpchOpt {
        input_path: "/in".to_string(),
        output_path: "/out".to_string(),
        partitions: 4,
        sort: true,
    };
    let conversions = options.conversions();
    let tables: Vec<&str> = conversions.iter().map(|c| c.table.as_str()).collect();
    assert_eq!(
        tables,
        vec!["part", "supplier", "partsupp", "customer", "orders", "lineitem", "nation", "region"]
    );
    let nation = &conversions[6];
    assert_eq!(nation.input_path, "/in/nation.tbl");
    let columns: Vec<&str> = nation.columns.iter().map(|c| c.as_str()).collect();
    assert_eq!(
        columns,
        vec!["n_nationkey", "n_name", "n_regionkey", "n_comment"]
    );
    assert_eq!(nation.sort_column, Some(Arc::new("n_nationkey".to_string())));
    assert_eq!(nation.partitions, 4);
    let unsorted = PrepareTpchOpt {
        sort: false,
        ..options
    };
    assert_eq!(unsorted.conversion("part").sort_column, None);
}

#[test]
fn datasets_are_told_by_their_path() {
    assert_eq!(
        Dataset::infer_from_data_path("/data/tpch_sf1"),
        Ok(Dataset::Tpch)
    );
    assert_eq!(
        Dataset::infer_from_data_path("/data/tpcds/tpch"),
        Ok(Dataset::Tpch)
    );
    assert_eq!(
        Dataset::infer_from_data_path("/data/tpcds_sf1"),
        Ok(Dataset::Tpcds)
    );
    assert_eq!(
        Dataset::infer_from_data_path("clickbench"),
        Ok(Dataset::Clickbench)
    );
    let error = Dataset::infer_from_data_path("/data/tpc").unwrap_err();
    assert_eq!(
        error.message(),
        "Cannot infer benchmark dataset from path /data/tpc"
    );
}

#[test]
fn one_query_is_left_out() {
    let ids = texts(&["q1", "q72", "q720"]);
    assert_eq!(Dataset::Tpcds.queries(&ids), texts(&["q1", "q720"]));
    assert_eq!(Dataset::Tpch.queries(&ids), ids);
    assert_eq!(Dataset::Clickbench.queries(&ids), ids);
    assert_eq!(Dataset::Tpch.case_name("q3"), "Tpch q3");
    assert_eq!(Dataset::Tpcds.case_name("q3"), "Tpcds q3");
    assert_eq!(Dataset::Clickbench.case_name("q0"), "Clickbench q0");
}

#[test]
fn queries_are_the_files_with_their_extension() {
    let files = texts(&["q1.sql", "README.md", "q2.sql.sql", ".sql", "q3.sqlx"]);
    assert_eq!(get_queries(&files), texts(&["q1", "q2", ""]));
    assert_eq!(query_file_name("q7"), "q7.sql");
    assert_eq!(query_text("\n  select 1\t\n"), "select 1");
}

fn statement(text: &str, is_setup: bool) -> Statement {
    Statement {
        text: text.to_string(),
        is_setup,
    }
}

#[test]
fn queries_are_split_into_statements() {
    assert_eq!(
        statements("create view v as select 1;\n select * from v ;\n\ndrop view v;\n"),
        vec![
            statement("create view v as select 1", true),
            statement("select * from v", false),
            statement("drop view v", true),
        ]
    );
    assert_eq!(statements(" ;; "), vec![]);
    assert_eq!(statements("CREATE x"), vec![statement("CREATE x", false)]);
}

fn options(query: &[&str], path: Option<&str>) -> RunOpt {
    RunOpt {
        query: texts(query),
        path: path.map(|path| path.to_string()),
        partitions: None,
    }
}

#[test]
fn options_have_their_defaults() {
    let all = options(&[], None);
    assert!(all.selects("q1"));
    let some = options(&["q1", "q3"], None);
    assert!(some.selects("q3"));
    assert!(!some.selects("q2"));
    assert_eq!(all.partitions(8), 8);
    let chosen = RunOpt {
        partitions: Some(2),
        ..options(&[], None)
    };
    assert_eq!(chosen.partitions(8), 2);
}

#[test]
fn the_only_dataset_is_the_default() {
    let given = options(&[], Some("/chosen"));
    assert_eq!(given.get_path("/data", &vec![]), Ok("/chosen".to_string()));
    let open = options(&[], None);
    assert_eq!(
        open.get_path("/data", &texts(&["/data/tpch"])),
        Ok("/data/tpch".to_string())
    );
    let none = open.get_path("/data", &vec![]).unwrap_err();
    assert_eq!(
        none.message(),
        "No Benchmarking dataset present in '/data'. Generate one with ./benchmarks/gen-tpch.sh"
    );
    let many = open.get_path("/data", &texts(&["a", "b"])).unwrap_err();
    assert_eq!(
        many,
        BenchmarkError::MultipleDatasets {
            directory: "/data".to_string()
        }
    );
    assert_eq!(
        many.message(),
        "Multiple Benchmarking datasets present in '/data'. One must be selected with --path"
    );
}

fn node(kind: OperatorKind, tasks: Option<usize>, children: Vec<Arc<PlanNode>>) -> Arc<PlanNode> {
    Arc::new(PlanNode {
        op: Arc::new(Operator {
            name: "CustomExec".to_string(),
            handle: None,
            kind,
            fetch: None,
            cardinality_effect: CardinalityEffect::Unknown,
            scheme: PartitionScheme::Unknown,
            equal_exprs: vec![],
            benefits_from_input_partitioning: vec![],
            required_input_distribution: vec![],
            partition_rule: PartitionRule::Constant,
            rebuildable: true,
            input_stage: tasks.map(|tasks| InputStage {
                query_id: QueryId { bytes: [0; 16] },
                num: 1,
                tasks,
            }),
        }),
        partition_count: 1,
        task_count: None,
        children,
    })
}

#[test]
fn tasks_are_counted_across_stages() {
    let inner = node(
        OperatorKind::NetworkShuffle,
        Some(3),
        vec![node(OperatorKind::Other, None, vec![])],
    );
    let outer = node(OperatorKind::NetworkCoalesce, Some(2), vec![inner]);
    let side = node(OperatorKind::NetworkBroadcast, Some(4), vec![]);
    let plan = node(OperatorKind::Other, Some(100), vec![outer, side]);
    assert_eq!(count_boundary_tasks(&plan), 9);
}

fn context() -> RunContext {
    RunContext {
        benchmark_version: "0.1.0".to_string(),
        datafusion_version: "53.1.0".to_string(),
        num_cpus: 8,
        workers: 2,
        threads: 4,
        start_time: 1_700_000_000,
        arguments: vec![],
    }
}

fn iteration(millis: u64) -> QueryIter {
    QueryIter {
        elapsed: Elapsed {
            secs: millis / 1000,
            subsec_nanos: (millis % 1000) as u32 * 1_000_000 + 999_999,
        },
        row_count: 1,
        n_tasks: 2,
    }
}

fn run(cases: &[(&str, &[u64])]) -> BenchmarkRun {
    let mut run = BenchmarkRun::new(context());
    for (name, iterations) in cases {
        run.start_new_case(name, 60);
        for millis in iterations.iter() {
            run.write_iter(iteration(*millis));
        }
        if iterations.is_empty() {
            run.mark_failed();
        }
    }
    run
}

#[test]
fn cases_collect_their_iterations() {
    let run = run(&[("q1", &[1500, 2500]), ("q2", &[])]);
    assert_eq!(run.current_case, Some(1));
    assert_eq!(run.queries[0].iterations.len(), 2);
    assert!(run.queries[0].success);
    assert_eq!(run.queries[0].avg(), 2000);
    assert_eq!(run.queries[0].start_time, 60);
    assert!(!run.queries[1].success);
    assert_eq!(run.context, context());
    assert_eq!(BenchmarkRun::new(context()).current_case, None);
}

#[test]
fn averages_are_rounded_down() {
    assert_eq!(run(&[("q", &[1, 2])]).queries[0].avg(), 1);
    let elapsed = Elapsed {
        secs: 2,
        subsec_nanos: 3_999_999,
    };
    assert_eq!(elapsed.as_millis(), 2003);
}

#[test]
fn failed_cases_are_named() {
    assert_eq!(run(&[("q1", &[1])]).failures(), None);
    assert_eq!(
        run(&[("q1", &[]), ("q2", &[1]), ("q3", &[])]).failures(),
        Some("Failed Queries: q1, q3".to_string())
    );
}

fn measured(query: &str, previous: u128, current: u128) -> Comparison {
    Comparison::Measured {
        query: query.to_string(),
        previous,
        current,
        previous_start: 60,
    }
}

#[test]
fn runs_are_compared_case_by_case() {
    let earlier = run(&[
        ("q1", &[100]),
        ("q2", &[]),
        ("q3", &[50]),
        ("q4", &[10]),
        ("q1", &[1]),
    ]);
    let current = run(&[
        ("q4", &[20]),
        ("q1", &[80, 60]),
        ("q2", &[5]),
        ("q3", &[]),
        ("q9", &[5]),
    ]);
    let comparisons = current.compare_with_previous(&earlier);
    assert_eq!(
        comparisons,
        vec![
            measured("q4", 10, 20),
            measured("q1", 100, 70),
            Comparison::Failed {
                query: "q3".to_string()
            },
        ]
    );
    let faster: Vec<bool> = comparisons.iter().map(|c| c.is_faster()).collect();
    assert_eq!(faster, vec![false, true, false]);
    assert!(current
        .compare_with_previous(&current)
        .iter()
        .all(|comparison| !comparison.is_faster()));
}

#[test]
fn comparisons_tell_when_the_earlier_run_was() {
    assert_eq!(
        comparison_header(0),
        Some("==== Comparison with the previous benchmark from 1970-01-01 00:00:00 UTC ====".to_string())
    );
    assert_eq!(
        comparison_header(1_700_000_000),
        Some("==== Comparison with the previous benchmark from 2023-11-14 22:13:20 UTC ====".to_string())
    );
    assert_eq!(
        comparison_header(8_210_266_876_799),
        Some("==== Comparison with the previous benchmark from +262142-12-31 23:59:59 UTC ====".to_string())
    );
    assert_eq!(comparison_header(8_210_266_876_800), None);
    assert_eq!(comparison_header(u64::MAX), None);
    assert_eq!(comparison_header(i64::MAX as u64), None);
}

fn change(ratio: &str, large: bool) -> Change {
    Change {
        ratio: ratio.to_string(),
        large,
    }
}

#[test]
fn comparison_lines_are_aligned() {
    let line = |previous, current, large| {
        comparison_line(&measured("q1", previous, current), &change("1.50", large))
    };
    assert_eq!(
        line(1500, 1000, true),
        format!("{:>8}: prev={:>4} ms, new={:>4} ms, diff={:.2} faster ✅", "q1", 1500, 1000, 1.5)
    );
    assert_eq!(line(3, 2, false), "      q1: prev=   3 ms, new=   2 ms, diff=1.50 faster ✔");
    assert_eq!(line(2, 3, true), "      q1: prev=   2 ms, new=   3 ms, diff=1.50 slower ❌");
    assert_eq!(line(7, 7, false), "      q1: prev=   7 ms, new=   7 ms, diff=1.50 slower ✖");
    assert_eq!(
        comparison_line(&measured("a_längerer_name", 12345, 0), &change("inf", true)),
        "a_längerer_name: prev=12345 ms, new=   0 ms, diff=inf faster ✅"
    );
    let failed = Comparison::Failed {
        query: "q3".to_string(),
    };
    assert_eq!(comparison_line(&failed, &change("", false)), "q3: Failed ❌");
}

#[test]
fn reports_are_headed_before_the_first_measured_case() {
    let failed = |query: &str| Comparison::Failed {
        query: query.to_string(),
    };
    let heading = texts(&["head", "===="]);
    let list = vec![failed("q1"), measured("q2", 2, 1), failed("q3"), measured("q4", 1, 2)];
    let changes = vec![
        change("", false),
        change("2.00", true),
        change("", false),
        change("2.00", true),
    ];
    assert_eq!(heading_start(&list), Some(60));
    assert_eq!(
        comparison_report(&list, &changes, &heading),
        texts(&[
            "q1: Failed ❌",
            "head",
            "====",
            "      q2: prev=   2 ms, new=   1 ms, diff=2.00 faster ✅",
            "q3: Failed ❌",
            "      q4: prev=   1 ms, new=   2 ms, diff=2.00 slower ❌",
        ])
    );
    let list = vec![failed("q1")];
    assert_eq!(heading_start(&list), None);
    assert_eq!(
        comparison_report(&list, &vec![change("", false)], &heading),
        texts(&["q1: Failed ❌"])
    );
    assert!(comparison_report(&vec![], &vec![], &heading).is_empty());
}

#[test]
fn headings_tell_the_machine_and_the_setup() {
    let previous = RunContext {
        workers: 3,
        threads: 10,
        ..context()
    };
    assert_eq!(
        heading_lines("= h\u{e4} =", "linux", "x86_64", 12, &previous, &context()),
        texts(&[
            "= h\u{e4} =",
            "os:        linux",
            "arch:      x86_64",
            "cpu cores: 12",
            "threads:   10 -> 4",
            "workers:   3 -> 2",
            "=======",
        ])
    );
}

#[test]
fn texts_are_trimmed_split_and_searched() {
    assert_eq!(trim("\u{a0} a b \u{3000}\u{2028}"), "a b");
    assert_eq!(trim(" \t\n"), "");
    assert_eq!(split("a;;b", ';'), texts(&["a", "", "b"]));
    assert_eq!(split("", ';'), texts(&[""]));
    assert!(text_contains("a/tpch/b", "tpch"));
    assert!(!text_contains("tpc", "tpch"));
    assert!(text_contains("anything", ""));
    let mut text = String::from("n=");
    push_decimal(&mut text, 0);
    push_decimal(&mut text, 1_203);
    push_decimal(&mut text, u128::MAX);
    assert_eq!(text, format!("n=01203{}", u128::MAX));
}
