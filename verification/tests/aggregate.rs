use logparser::aggregate::{aggregate, get_leaf_tasks, try_aggregate};
use logparser::model::{Package, Task};
use logparser::pipeline::build_packages;
use logparser::timestamp::{duration_seconds, Timestamp};

fn at(secs: i64) -> Timestamp {
    Timestamp { secs, nanos: 0, offset_secs: 0 }
}

fn leaf(name: &str, start: i64, end: i64) -> Task {
    Task { name: name.to_string(), start_time: at(start), end_time: at(end), tasks: Vec::new() }
}

fn package(name: &str, container: &str, tasks: Vec<Task>) -> Package {
    Package {
        package_name: name.to_string(),
        container_name: container.to_string(),
        tasks,
    }
}

#[test]
fn sums_same_key_across_files_exactly() {
    // Two files, each with package P, container C and leaf task T1:
    // 5 seconds in one and 10 in the other add up to exactly 15.
    let file_one = vec![package("P", "C", vec![leaf("T1", 1000, 1005)])];
    let file_two = vec![package("P", "C", vec![leaf("T1", 2000, 2010)])];
    let mut all = Vec::new();
    all.extend(file_one);
    all.extend(file_two);

    let rows = try_aggregate(&all).unwrap();
    assert_eq!(rows.len(), 1);
    assert_eq!(rows[0].package_name, "P");
    assert_eq!(rows[0].container_name, "C");
    assert_eq!(rows[0].task_name, "T1");
    assert_eq!(rows[0].total_seconds, 15);
}

#[test]
fn end_to_end_file_to_ranked_report() {
    let lines: Vec<String> = [
        "Pre-execute package P",
        "2017-04-20T10:00:00.0000000+00:00 PRE EXECUTE T1",
        "2017-04-20T10:00:05.0000000+00:00 POST EXECUTE T1",
        "Container Name       : C",
    ]
    .iter()
    .map(|l| l.to_string())
    .collect();

    let packages = build_packages(lines).unwrap();
    assert_eq!(packages.len(), 1);
    assert_eq!(packages[0].package_name, "P");
    assert_eq!(packages[0].container_name, "C");
    assert_eq!(packages[0].tasks.len(), 1);
    let task = &packages[0].tasks[0];
    assert_eq!(task.name, "T1");
    assert!(task.tasks.is_empty());
    assert_eq!(duration_seconds(&task.start_time, &task.end_time), 5);

    let rows = try_aggregate(&packages).unwrap();
    assert_eq!(rows.len(), 1);
    assert_eq!(rows[0].package_name, "P");
    assert_eq!(rows[0].container_name, "C");
    assert_eq!(rows[0].task_name, "T1");
    assert_eq!(rows[0].total_seconds, 5);
}

#[test]
fn non_leaf_tasks_are_excluded_from_aggregation() {
    // "outer" has a child, so only "inner" may appear as a key.
    let outer = Task {
        name: "outer".to_string(),
        start_time: at(0),
        end_time: at(100),
        tasks: vec![leaf("inner", 10, 30)],
    };
    let packages = vec![package("P", "C", vec![outer])];

    let rows = try_aggregate(&packages).unwrap();
    assert_eq!(rows.len(), 1);
    assert_eq!(rows[0].task_name, "inner");
    assert_eq!(rows[0].total_seconds, 20);
}

#[test]
fn get_leaf_tasks_collects_leaves_depth_first() {
    let forest = vec![
        Task {
            name: "a".to_string(),
            start_time: at(0),
            end_time: at(1),
            tasks: vec![leaf("a1", 0, 1), leaf("a2", 1, 2)],
        },
        leaf("b", 2, 3),
    ];
    let leaves = get_leaf_tasks(&forest);
    let names: Vec<&str> = leaves.iter().map(|t| t.name.as_str()).collect();
    assert_eq!(names, vec!["a1", "a2", "b"]);
}

#[test]
fn ranks_totals_in_descending_order() {
    let packages = vec![package(
        "P",
        "C",
        vec![leaf("small", 0, 5), leaf("large", 0, 20), leaf("middle", 0, 10)],
    )];
    let rows = aggregate(&packages);
    assert_eq!(rows.len(), 3);
    assert_eq!(rows[0].task_name, "large");
    assert_eq!(rows[0].total_seconds, 20);
    assert_eq!(rows[1].task_name, "middle");
    assert_eq!(rows[1].total_seconds, 10);
    assert_eq!(rows[2].task_name, "small");
    assert_eq!(rows[2].total_seconds, 5);
}

#[test]
fn negative_durations_are_kept_exactly() {
    // An end before the start stays a plain negative difference.
    let packages = vec![package("P", "C", vec![leaf("back", 1000, 995)])];
    let rows = try_aggregate(&packages).unwrap();
    assert_eq!(rows.len(), 1);
    assert_eq!(rows[0].total_seconds, -5);
}

#[test]
fn duration_truncates_toward_zero() {
    let s = Timestamp { secs: 10, nanos: 500_000_000, offset_secs: 0 };
    let e = Timestamp { secs: 12, nanos: 0, offset_secs: 0 };
    // 1.5 s forward is 1 whole second; 1.5 s backward is -1.
    assert_eq!(duration_seconds(&s, &e), 1);
    assert_eq!(duration_seconds(&e, &s), -1);
    // The preserved offset plays no part in the difference.
    let shifted = Timestamp { secs: 12, nanos: 0, offset_secs: 3600 };
    assert_eq!(duration_seconds(&s, &shifted), 1);
}

#[test]
fn keys_differ_when_any_component_differs() {
    let packages = vec![
        package("P", "C", vec![leaf("T", 0, 1)]),
        package("P", "D", vec![leaf("T", 0, 2)]),
        package("Q", "C", vec![leaf("T", 0, 4)]),
    ];
    let rows = try_aggregate(&packages).unwrap();
    assert_eq!(rows.len(), 3);
    let mut totals: Vec<i128> = rows.iter().map(|r| r.total_seconds).collect();
    totals.sort();
    assert_eq!(totals, vec![1, 2, 4]);
}

#[test]
fn structural_error_discards_file() {
    let lines: Vec<String> = [
        "Pre-execute package P",
        "2017-04-20T10:00:05.0000000+00:00 POST EXECUTE T1",
    ]
    .iter()
    .map(|l| l.to_string())
    .collect();
    assert!(build_packages(lines).is_err());
}
