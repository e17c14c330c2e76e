use log_utils::retention::{
    effective_max, files_to_prune, log_file_name, plan_rotation, plan_rotation_at,
    qualifying_names, ListedEntry,
};

fn file(name: &str) -> ListedEntry {
    ListedEntry { name: name.to_string(), is_file: true }
}

fn dir(name: &str) -> ListedEntry {
    ListedEntry { name: name.to_string(), is_file: false }
}

fn strings(v: &[&str]) -> Vec<String> {
    v.iter().map(|s| s.to_string()).collect()
}

#[test]
fn prunes_oldest_of_three() {
    let entries = vec![
        file("prefix.2024-01-02T00:00:00"),
        file("prefix.2024-01-03T00:00:00"),
        file("prefix.2024-01-01T00:00:00"),
    ];
    let plan = plan_rotation_at(2, &entries, "prefix", "2024-01-04T00:00:00");
    assert_eq!(
        plan.remove,
        strings(&["prefix.2024-01-01T00:00:00", "prefix.2024-01-02T00:00:00"])
    );
    assert_eq!(plan.create, "prefix.2024-01-04T00:00:00");
    let plan = plan_rotation_at(3, &entries, "prefix", "2024-01-04T00:00:00");
    assert_eq!(plan.remove, strings(&["prefix.2024-01-01T00:00:00"]));
}

#[test]
fn zero_max_plans_as_one() {
    let entries = vec![file("log.b"), file("log.a"), file("other")];
    let zero = plan_rotation_at(0, &entries, "log", "z");
    let one = plan_rotation_at(1, &entries, "log", "z");
    assert_eq!(zero.remove, one.remove);
    assert_eq!(zero.create, one.create);
    assert_eq!(one.remove, strings(&["log.a", "log.b"]));
}

#[test]
fn other_files_and_directories_are_kept() {
    let entries = vec![
        file("app.1"),
        file("notes.txt"),
        dir("app.old"),
        file("zzz"),
        file("app.2"),
    ];
    let plan = plan_rotation_at(1, &entries, "app", "3");
    assert_eq!(plan.remove, strings(&["app.1", "app.2"]));
    assert_eq!(plan.create, "app.3");
}

#[test]
fn count_after_rotation_is_bounded() {
    let names = ["p.01", "p.02", "p.03", "p.04", "p.05"];
    for max in 1..8usize {
        for n in 0..=names.len() {
            let entries: Vec<ListedEntry> = names[..n].iter().map(|s| file(s)).collect();
            let plan = plan_rotation_at(max, &entries, "p", "99");
            let left = n - plan.remove.len() + 1;
            assert_eq!(left, n.min(max - 1) + 1);
            for (i, r) in plan.remove.iter().enumerate() {
                assert_eq!(r, names[i]);
            }
        }
    }
}

#[test]
fn fewer_files_than_max_removes_none() {
    let entries = vec![file("p.1"), file("p.2")];
    let plan = plan_rotation_at(5, &entries, "p", "3");
    assert!(plan.remove.is_empty());
}

#[test]
fn empty_prefix_matches_every_file() {
    let entries = vec![file("b"), dir("a"), file("c")];
    assert_eq!(qualifying_names(&entries, ""), strings(&["b", "c"]));
}

#[test]
fn qualifying_keeps_listing_order() {
    let entries = vec![file("x.3"), file("y.1"), file("x.1"), dir("x.2"), file("x")];
    assert_eq!(qualifying_names(&entries, "x."), strings(&["x.3", "x.1"]));
}

#[test]
fn prune_takes_leading_files() {
    let sorted = strings(&["a", "b", "c", "d"]);
    assert_eq!(files_to_prune(&sorted, 2), strings(&["a", "b", "c"]));
    assert_eq!(files_to_prune(&sorted, 4), strings(&["a"]));
    assert_eq!(files_to_prune(&sorted, 5), Vec::<String>::new());
    assert_eq!(files_to_prune(&sorted, 0), sorted);
}

#[test]
fn max_below_one_counts_as_one() {
    assert_eq!(effective_max(0), 1);
    assert_eq!(effective_max(1), 1);
    assert_eq!(effective_max(9), 9);
}

#[test]
fn file_name_joins_prefix_and_stamp() {
    assert_eq!(log_file_name("app", "2024-05-06T07:08:09"), "app.2024-05-06T07:08:09");
    assert_eq!(log_file_name("", "s"), ".s");
}

#[test]
fn sorting_orders_by_name_not_listing() {
    let entries = vec![file("q.c"), file("q.a"), file("q.b"), file("q.ab")];
    let plan = plan_rotation_at(2, &entries, "q", "z");
    assert_eq!(plan.remove, strings(&["q.a", "q.ab", "q.b"]));
}

#[test]
fn plan_names_new_file_after_local_time() {
    let entries = vec![file("run.2000-01-01T00:00:00")];
    let plan = plan_rotation(1, &entries, "run");
    assert_eq!(plan.remove, strings(&["run.2000-01-01T00:00:00"]));
    let stamp = plan.create.strip_prefix("run.").unwrap();
    assert!(chrono::NaiveDateTime::parse_from_str(stamp, "%Y-%m-%dT%H:%M:%S").is_ok());
    assert_eq!(stamp.len(), 19);
}
