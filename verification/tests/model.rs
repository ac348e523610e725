use logparser::model::{BuildError, Builder};
use logparser::reader::{LogEvent, SsisEvent};
use logparser::timestamp::Timestamp;

fn log_event(value: &str) -> LogEvent {
    LogEvent { value: value.to_string() }
}

// 2017-04-26T00:00:00.000+09:00
fn default_time() -> Timestamp {
    Timestamp { secs: 1493132400, nanos: 0, offset_secs: 9 * 3600 }
}

fn ssis_event(value: &str) -> SsisEvent {
    SsisEvent { value: value.to_string(), time: default_time() }
}

fn ssis_event_at(value: &str, time: Timestamp) -> SsisEvent {
    SsisEvent { value: value.to_string(), time }
}

#[test]
fn should_create_package_after_start_package_and_container_name() {
    let pe = log_event("package");
    let ce = log_event("container");
    let mut sut = Builder::new();

    let _ = sut.start_package(&pe);
    let _ = sut.container_name(&ce);

    let actual_package_option = sut.packages.pop();
    assert!(actual_package_option.is_some());
    let actual_package = actual_package_option.unwrap();
    assert!(actual_package.package_name == "package");
    assert!(actual_package.container_name == "container");
}

#[test]
fn should_add_task_to_package() {
    // 2017-04-26T00:00:00.000+09:00
    let time_start = Timestamp { secs: 1493132400, nanos: 0, offset_secs: 9 * 3600 };
    // 2014-04-26T00:01:01.001+09:00
    let time_end = Timestamp { secs: 1398438061, nanos: 1_000_000, offset_secs: 9 * 3600 };
    let pe = log_event("package");
    let pre_task_evt = ssis_event_at("task_1", time_start);
    let post_task_evt = ssis_event_at("task_1", time_end);
    let ce = log_event("package");
    let mut sut = Builder::new();

    let _ = sut.start_package(&pe);
    let _ = sut.pre_task(&pre_task_evt);
    let _ = sut.post_task(&post_task_evt);
    let _ = sut.container_name(&ce);

    let tasks = sut.packages.pop().unwrap().tasks;
    let actual_task_option = tasks.last();
    assert!(actual_task_option.is_some());
    let actual_task = actual_task_option.unwrap();
    assert!(actual_task.name == "task_1");
    assert!(actual_task.start_time == time_start);
    assert!(actual_task.end_time == time_end);
}

#[test]
fn should_add_many_tasks_to_package() {
    let mut sut = Builder::new();

    let _ = sut.start_package(&log_event("package"));

    let _ = sut.pre_task(&ssis_event("task1"));
    let _ = sut.post_task(&ssis_event("task1"));

    let _ = sut.pre_task(&ssis_event("task2"));
    let _ = sut.post_task(&ssis_event("task2"));

    let _ = sut.container_name(&log_event("package"));

    let tasks = sut.packages.pop().unwrap().tasks;
    assert!(tasks.len() == 2);
    let actual_task1 = tasks.get(0).unwrap();
    assert!(actual_task1.name == "task1");
    let actual_task2 = tasks.get(1).unwrap();
    assert!(actual_task2.name == "task2");
}

#[test]
fn should_add_nested_task() {
    let mut sut = Builder::new();

    let _ = sut.start_package(&log_event("package"));

    let _ = sut.pre_task(&ssis_event("task1"));
    let _ = sut.pre_task(&ssis_event("task2"));
    let _ = sut.post_task(&ssis_event("task2"));
    let _ = sut.post_task(&ssis_event("task1"));

    let _ = sut.container_name(&log_event("package"));

    println!("{:?}", &sut.packages);
    let tasks = sut.packages.pop().unwrap().tasks;
    assert!(tasks.len() == 1);
    let actual_task1 = tasks.get(0).unwrap();
    assert!(actual_task1.name == "task1");
    assert!(actual_task1.tasks.len() == 1);
    let actual_task2 = actual_task1.tasks.get(0).unwrap();
    assert!(actual_task2.name == "task2");
}

#[test]
fn should_return_error_on_pre_start_task_when_package_not_started() {
    let mut sut = Builder::new();

    let result = sut.pre_task(&ssis_event("task1"));

    match result {
        Err(_) => assert!(true),
        Ok(_) => assert!(false, "Expected error"),
    }
}

#[test]
fn should_return_error_on_post_start_task_when_package_not_started() {
    let mut sut = Builder::new();

    let _ = sut.pre_task(&ssis_event("task"));
    let result = sut.post_task(&ssis_event("task"));

    match result {
        Err(_) => assert!(true),
        Ok(_) => assert!(false, "Expected error"),
    }
}

#[test]
fn should_return_error_on_post_start_task_when_pre_task_not_called() {
    let mut sut = Builder::new();

    let _ = sut.start_package(&log_event("package"));
    let result = sut.post_task(&ssis_event("task"));

    match result {
        Err(_) => assert!(true),
        Ok(_) => assert!(false, "Expected error"),
    }
}

#[test]
fn should_return_error_on_container_name_when_package_not_started() {
    let mut sut = Builder::new();

    let result = sut.container_name(&log_event("package"));

    match result {
        Err(_) => assert!(true),
        Ok(_) => assert!(false, "Expected error"),
    }
}

#[test]
fn pre_task_before_package_gives_no_active_package_and_keeps_packages_empty() {
    let mut sut = Builder::new();
    let result = sut.pre_task(&ssis_event("task1"));
    assert_eq!(result, Err(BuildError::NoActivePackage));
    assert!(sut.packages.is_empty());
}

#[test]
fn post_task_with_empty_stack_gives_no_open_task() {
    let mut sut = Builder::new();
    let _ = sut.start_package(&log_event("package"));
    let result = sut.post_task(&ssis_event("task"));
    assert_eq!(result, Err(BuildError::NoOpenTask));
}

#[test]
fn container_name_before_package_gives_no_active_package() {
    let mut sut = Builder::new();
    let result = sut.container_name(&log_event("c"));
    assert_eq!(result, Err(BuildError::NoActivePackage));
}

#[test]
fn post_task_with_open_task_but_no_package_gives_no_active_package() {
    let mut sut = Builder::new();
    // An open task with no package can only come from outside the normal
    // event order; the popped task is then lost and the error reported.
    sut.tasks_stack.push(logparser::model::Task {
        name: "orphan".to_string(),
        start_time: default_time(),
        end_time: default_time(),
        tasks: Vec::new(),
    });
    let result = sut.post_task(&ssis_event("orphan"));
    assert_eq!(result, Err(BuildError::NoActivePackage));
    assert!(sut.tasks_stack.is_empty());
    assert!(sut.packages.is_empty());
}
