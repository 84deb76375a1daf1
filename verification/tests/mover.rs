use yeehaw::actions::{first_step, next_step, FsAction, GroupSummary, Step};
use yeehaw::args::{GroupStyle, RenameStyle, YeeArgs};
use yeehaw::meta::Meta;
use yeehaw::mover::Mover;
use yeehaw::scanner::{Entry, EntryKind, Scanner};
use yeehaw::store::Store;
use yeehaw::yee_file::YeeFile;

fn settings(copy_mode: bool) -> YeeArgs {
    YeeArgs {
        source_dir: "/in".to_string(),
        query: "*".to_string(),
        destination_dir: "/out".to_string(),
        dry: false,
        track_duplicates: true,
        rename_style: RenameStyle::ShortHash,
        group_style: GroupStyle::ShortHash,
        copy_mode,
    }
}

fn placed(name: &str, group: &str, folder: &str) -> YeeFile {
    YeeFile {
        filename: name.to_string(),
        extension: "txt".to_string(),
        source_filename: format!("found_{}", name),
        source_full_path: format!("/in/{}", group),
        destination_full_path: format!("/out/{}", folder),
        source_local_path: group.to_string(),
        destination_local_path: folder.to_string(),
        hash: Some("0123456789abcdef".to_string()),
        group_id: group.to_string(),
    }
}

fn make(path: &str) -> FsAction {
    FsAction::CreateDirAll { path: path.to_string() }
}

fn copy(from: &str, to: &str) -> FsAction {
    FsAction::CopyFile { from: from.to_string(), to: to.to_string() }
}

fn delete(path: &str) -> FsAction {
    FsAction::RemoveFile { path: path.to_string() }
}

fn write(path: &str, record: &YeeFile) -> FsAction {
    FsAction::WriteRecord { path: path.to_string(), record: record.clone() }
}

fn summary(path: &str, group: &str, files: &[&str]) -> FsAction {
    FsAction::WriteSummary {
        path: path.to_string(),
        summary: GroupSummary {
            group_id: group.to_string(),
            file_count: files.len(),
            files: files.iter().map(|name| name.to_string()).collect(),
        },
    }
}

#[test]
fn move_files_writes_the_records_and_moves_the_file() {
    let file = placed("one", "a", "a");
    let plan = Mover::new(settings(false)).move_files(vec![file.clone()]);
    assert_eq!(
        plan,
        vec![
            make("/out/a/.yeehaw"),
            write("/out/a/.yeehaw/a_one_txt.yaml", &file),
            summary("/out/a/.yeehaw/a_summary.yaml", "a", &["one.txt"]),
            make("/out/a"),
            copy("/in/a/found_one.txt", "/out/a/one.txt"),
            delete("/in/a/found_one.txt"),
        ]
    );
}

#[test]
fn move_files_in_copy_mode_deletes_nothing() {
    let files = vec![placed("one", "a", "a"), placed("two", "b", "b")];
    let plan = Mover::new(settings(true)).move_files(files);
    assert!(plan.iter().all(|action| !matches!(action, FsAction::RemoveFile { .. })));
    assert_eq!(plan.iter().filter(|action| matches!(action, FsAction::CopyFile { .. })).count(), 2);
}

#[test]
fn move_files_writes_group_by_group_in_the_order_of_first_sight() {
    let files = vec![
        placed("one", "b", "b"),
        placed("two", "a", "a"),
        placed("three", "b", "b"),
        placed("four", "c", "c"),
        placed("five", "a", "a"),
    ];
    let plan = Mover::new(settings(true)).move_files(files.clone());
    assert_eq!(
        plan,
        vec![
            make("/out/b/.yeehaw"),
            write("/out/b/.yeehaw/b_one_txt.yaml", &files[0]),
            write("/out/b/.yeehaw/b_three_txt.yaml", &files[2]),
            summary("/out/b/.yeehaw/b_summary.yaml", "b", &["one.txt", "three.txt"]),
            make("/out/a/.yeehaw"),
            write("/out/a/.yeehaw/a_two_txt.yaml", &files[1]),
            write("/out/a/.yeehaw/a_five_txt.yaml", &files[4]),
            summary("/out/a/.yeehaw/a_summary.yaml", "a", &["two.txt", "five.txt"]),
            make("/out/c/.yeehaw"),
            write("/out/c/.yeehaw/c_four_txt.yaml", &files[3]),
            summary("/out/c/.yeehaw/c_summary.yaml", "c", &["four.txt"]),
            make("/out/b"),
            copy("/in/b/found_one.txt", "/out/b/one.txt"),
            make("/out/a"),
            copy("/in/a/found_two.txt", "/out/a/two.txt"),
            make("/out/b"),
            copy("/in/b/found_three.txt", "/out/b/three.txt"),
            make("/out/c"),
            copy("/in/c/found_four.txt", "/out/c/four.txt"),
            make("/out/a"),
            copy("/in/a/found_five.txt", "/out/a/five.txt"),
        ]
    );
}

#[test]
fn move_files_puts_the_records_of_a_file_without_folder_below_the_root() {
    let mut file = placed("one", "a", "");
    file.destination_full_path = "/out".to_string();
    let plan = Mover::new(settings(true)).move_files(vec![file.clone()]);
    assert_eq!(
        plan,
        vec![
            make("/out/.yeehaw"),
            write("/out/.yeehaw/a_one_txt.yaml", &file),
            summary("/out/.yeehaw/a_summary.yaml", "a", &["one.txt"]),
            make("/out"),
            copy("/in/a/found_one.txt", "/out/one.txt"),
        ]
    );
}

#[test]
fn move_files_of_nothing_plans_nothing() {
    assert!(Mover::new(settings(false)).move_files(Vec::new()).is_empty());
}

#[test]
fn move_duplicates_places_below_dupes() {
    let file = placed("one", "a", "group_0001");
    let plan = Mover::new(settings(false)).move_duplicates(vec![file.clone()]);
    assert_eq!(
        plan,
        vec![
            make("/out/group_0001/.yeehaw"),
            write("/out/group_0001/.yeehaw/a_one_txt.yaml", &file),
            summary("/out/group_0001/.yeehaw/a_summary.yaml", "a", &["one.txt"]),
            make("/out/_dupes/group_0001"),
            copy("/in/a/found_one.txt", "/out/_dupes/group_0001/one.txt"),
            delete("/in/a/found_one.txt"),
        ]
    );
}

#[test]
fn move_duplicates_falls_back_on_the_local_path() {
    let mut file = placed("one", "a", "a");
    file.destination_full_path = "/elsewhere/a".to_string();
    let plan = Mover::new(settings(true)).move_duplicates(vec![file]);
    assert_eq!(plan[3], make("/out/_dupes/a"));
    assert_eq!(plan[4], copy("/in/a/found_one.txt", "/out/_dupes/a/one.txt"));
}

#[test]
fn move_duplicates_of_nothing_plans_nothing() {
    assert!(Mover::new(settings(false)).move_duplicates(Vec::new()).is_empty());
}

#[test]
fn dry_run_plans_nothing() {
    let mut dry = settings(false);
    dry.dry = true;
    let files = vec![placed("one", "a", "a"), placed("two", "b", "b")];
    assert!(Mover::new(dry.clone()).move_files(files.clone()).is_empty());
    assert!(Mover::new(dry).move_duplicates(files).is_empty());
}

#[test]
fn every_deletion_stands_behind_the_copy_of_its_file() {
    let files = vec![placed("one", "a", "a"), placed("two", "b", "b"), placed("three", "a", "a")];
    for duplicates in [false, true] {
        let mover = Mover::new(settings(false));
        let plan = if duplicates {
            mover.move_duplicates(files.clone())
        } else {
            mover.move_files(files.clone())
        };
        let mut deletions = 0;
        for position in 0..plan.len() {
            if let FsAction::RemoveFile { path } = &plan[position] {
                deletions += 1;
                match &plan[position - 1] {
                    FsAction::CopyFile { from, .. } => assert_eq!(from, path),
                    _ => panic!("a deletion that follows no copy"),
                }
            }
        }
        assert_eq!(deletions, 3);
    }
}

#[test]
fn first_step_of_a_plan() {
    assert_eq!(first_step(&Vec::new()), Step::Finished);
    assert_eq!(first_step(&vec![make("/out")]), Step::Perform(0));
}

#[test]
fn next_step_goes_on_after_success() {
    let plan = vec![make("/out/a"), copy("/in/a/found_1.txt", "/out/a/1.txt"), delete("/in/a/found_1.txt")];
    assert_eq!(next_step(&plan, 0, true), Step::Perform(1));
    assert_eq!(next_step(&plan, 1, true), Step::Perform(2));
    assert_eq!(next_step(&plan, 2, true), Step::Finished);
}

#[test]
fn next_step_gives_up_where_nothing_can_be_written() {
    let file = placed("one", "a", "a");
    let plan = vec![
        make("/out/a/.yeehaw"),
        write("/out/a/.yeehaw/a_one_txt.yaml", &file),
        summary("/out/a/.yeehaw/a_summary.yaml", "a", &["one.txt"]),
        make("/out/a"),
    ];
    assert_eq!(next_step(&plan, 0, false), Step::Aborted);
    assert_eq!(next_step(&plan, 1, false), Step::Aborted);
    assert_eq!(next_step(&plan, 2, false), Step::Aborted);
    assert_eq!(next_step(&plan, 3, false), Step::Aborted);
}

#[test]
fn next_step_skips_the_deletion_after_a_failed_copy() {
    let plan = vec![
        make("/out/a"),
        copy("/in/a/found_1.txt", "/out/a/1.txt"),
        delete("/in/a/found_1.txt"),
        make("/out/a"),
        copy("/in/a/found_2.txt", "/out/a/2.txt"),
        delete("/in/a/found_2.txt"),
    ];
    assert_eq!(next_step(&plan, 1, false), Step::Perform(3));
    assert_eq!(next_step(&plan, 4, false), Step::Finished);
}

#[test]
fn next_step_goes_on_after_a_failed_copy_in_copy_mode() {
    let plan = vec![
        copy("/in/a/found_1.txt", "/out/a/1.txt"),
        copy("/in/a/found_2.txt", "/out/a/2.txt"),
    ];
    assert_eq!(next_step(&plan, 0, false), Step::Perform(1));
    assert_eq!(next_step(&plan, 1, false), Step::Finished);
}

#[test]
fn next_step_goes_on_after_a_failed_deletion() {
    let plan = vec![
        copy("/in/a/found_1.txt", "/out/a/1.txt"),
        delete("/in/a/found_1.txt"),
        copy("/in/a/found_2.txt", "/out/a/2.txt"),
    ];
    assert_eq!(next_step(&plan, 1, false), Step::Perform(2));
}

#[test]
fn next_step_past_the_end_is_the_end() {
    let plan = vec![make("/out")];
    assert_eq!(next_step(&plan, 1, true), Step::Finished);
    assert_eq!(next_step(&plan, 7, false), Step::Finished);
    assert_eq!(next_step(&Vec::new(), 0, false), Step::Finished);
}

#[test]
fn run_of_a_plan_deletes_only_what_was_copied() {
    let files = vec![placed("one", "a", "a"), placed("two", "a", "a"), placed("three", "b", "b")];
    let plan = Mover::new(settings(false)).move_files(files);
    let failing = "/in/a/found_two.txt";
    let mut copied: Vec<String> = Vec::new();
    let mut deleted: Vec<String> = Vec::new();
    let mut step = first_step(&plan);
    while let Step::Perform(position) = step {
        let succeeded = match &plan[position] {
            FsAction::CopyFile { from, .. } => {
                if from == failing {
                    false
                } else {
                    copied.push(from.clone());
                    true
                }
            }
            FsAction::RemoveFile { path } => {
                deleted.push(path.clone());
                true
            }
            _ => true,
        };
        step = next_step(&plan, position, succeeded);
    }
    assert_eq!(step, Step::Finished);
    assert_eq!(copied, vec!["/in/a/found_one.txt", "/in/b/found_three.txt"]);
    assert_eq!(deleted, copied);
}

#[test]
fn scenario_three_files_two_of_them_alike() {
    let mut args = settings(true);
    args.source_dir = "/src".to_string();
    args.query = "*.txt".to_string();
    let mut walk = Scanner::new().scan(&args.source_dir, &args.query).unwrap();
    while let Some(directory) = walk.next_directory() {
        let entries = match directory.as_str() {
            "/src" => vec![
                Entry { path: "/src/b".to_string(), kind: EntryKind::Directory },
                Entry { path: "/src/a".to_string(), kind: EntryKind::Directory },
            ],
            "/src/a" => vec![
                Entry { path: "/src/a/1.txt".to_string(), kind: EntryKind::File },
                Entry { path: "/src/a/2.txt".to_string(), kind: EntryKind::File },
            ],
            "/src/b" => vec![Entry { path: "/src/b/3.txt".to_string(), kind: EntryKind::File }],
            _ => Vec::new(),
        };
        walk.visit(&entries);
    }
    let mut files = walk.into_files();
    assert_eq!(files.len(), 3);

    let digest_of = |content: &[u8]| yeehaw::digest::ContentHasher::new().update(content).finish();
    let digests = vec![Some(digest_of(b"x")), Some(digest_of(b"x")), Some(digest_of(b"y"))];
    let mut meta = Meta::new(args.clone());
    let directories = meta.process(&mut files, &digests);
    assert_eq!(directories, vec![make("/out/a"), make("/out/a"), make("/out/b")]);
    assert_eq!(files[0].hash, files[1].hash);
    assert_ne!(files[0].hash, files[2].hash);

    let mut store = Store::new();
    store.insert_batch(files);
    assert_eq!(store.original_count(), 2);
    assert_eq!(store.duplicate_count(), 1);
    assert_eq!(store.originals()[0].source_local_path, "a");
    assert_eq!(store.originals()[1].source_local_path, "b");
    assert_eq!(store.duplicates()[0].source_local_path, "a");

    let mover = Mover::new(args);
    let originals = mover.move_files(store.originals().clone());
    let duplicates = mover.move_duplicates(store.duplicates().clone());
    let copies = |plan: &Vec<FsAction>| -> Vec<String> {
        plan.iter()
            .filter_map(|action| match action {
                FsAction::CopyFile { to, .. } => Some(to.clone()),
                _ => None,
            })
            .collect()
    };
    let short = |file: &YeeFile| file.hash.clone().unwrap()[..8].to_string();
    assert_eq!(
        copies(&originals),
        vec![
            format!("/out/a/{}.txt", short(&store.originals()[0])),
            format!("/out/b/{}.txt", short(&store.originals()[1])),
        ]
    );
    assert_eq!(
        copies(&duplicates),
        vec![format!("/out/_dupes/a/{}.txt", short(&store.duplicates()[0]))]
    );
    let sources = |plan: &Vec<FsAction>| -> Vec<String> {
        plan.iter()
            .filter_map(|action| match action {
                FsAction::CopyFile { from, .. } => Some(from.clone()),
                _ => None,
            })
            .collect()
    };
    assert_eq!(sources(&originals), vec!["/src/a/1.txt", "/src/b/3.txt"]);
    assert_eq!(sources(&duplicates), vec!["/src/a/2.txt"]);
    let count = |plan: &Vec<FsAction>, wanted: fn(&FsAction) -> bool| {
        plan.iter().filter(|action| wanted(action)).count()
    };
    let records = count(&originals, |action| matches!(action, FsAction::WriteRecord { .. }))
        + count(&duplicates, |action| matches!(action, FsAction::WriteRecord { .. }));
    assert_eq!(records, 3);
    let mut summaries: Vec<String> = Vec::new();
    for action in originals.iter().chain(duplicates.iter()) {
        if let FsAction::WriteSummary { path, .. } = action {
            if !summaries.contains(path) {
                summaries.push(path.clone());
            }
        }
    }
    assert_eq!(summaries, vec!["/out/a/.yeehaw/a_summary.yaml", "/out/b/.yeehaw/b_summary.yaml"]);
    let deletions = count(&originals, |action| matches!(action, FsAction::RemoveFile { .. }))
        + count(&duplicates, |action| matches!(action, FsAction::RemoveFile { .. }));
    assert_eq!(deletions, 0);
}
