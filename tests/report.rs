use moon_tree::report::{FormatError, Moon, Project, Task};

#[test]
fn should_create_task() {
    let task = Task::new("p".to_string(), ":check | biome".to_string());
    assert_eq!(task.command, "p:check")
}

#[test]
fn test_moon_generate() {
    let tasks = r#"
kickbase
	:build | make
	:dist-clean | make
	:doc | make
	:edit | nvim
	:fmt | make
	:help | make
	:install | make
	:lint | make
	:lpi | lpi
	:release | make
	:run | make
	:run-release | make
	:shell | nom
	:test | make
	:test-all | make
	:uninstall | make
"#;
    let moon = Moon::generate(String::from(tasks)).unwrap();
    println!("{moon:#?}");
    assert_eq!(moon.projects.len(), 1);
    assert_eq!(moon.projects[0].project, "kickbase");
    assert_eq!(moon.projects[0].tasks.len(), 16);
    assert_eq!(moon.projects[0].tasks[1].command, "kickbase:dist-clean");
    assert_eq!(moon.projects[0].tasks[15].task, ":uninstall | make");
    assert_eq!(moon.projects[0].tasks[15].command, "kickbase:uninstall");
}

#[test]
fn task_keeps_its_entry_and_trims_the_name() {
    let task = Task::new("web".to_string(), "  :lint \t|  eslint .".to_string());
    assert_eq!(task.task, "  :lint \t|  eslint .");
    assert_eq!(task.command, "web:lint");
}

#[test]
fn task_name_stops_at_first_bar() {
    let task = Task::new("p".to_string(), ":a | b | c".to_string());
    assert_eq!(task.command, "p:a");
}

#[test]
fn task_with_empty_name() {
    let task = Task::new("p".to_string(), "| cmd".to_string());
    assert_eq!(task.command, "p");
}

#[test]
fn two_tasks_of_one_project() {
    let moon = Moon::generate("kickbase\n\t:build | make\n\t:test | make".to_string()).unwrap();
    assert_eq!(moon.projects.len(), 1);
    assert_eq!(moon.projects[0].project, "kickbase");
    assert_eq!(moon.projects[0].tasks.len(), 2);
    assert_eq!(moon.projects[0].tasks[0].command, "kickbase:build");
    assert_eq!(moon.projects[0].tasks[1].command, "kickbase:test");
    assert_eq!(moon.projects[0].tasks[0].task, ":build | make");
}

#[test]
fn last_project_kept_without_trailing_newline() {
    let a = Moon::generate("a\n\t:x | y\nb\n\t:z | w".to_string()).unwrap();
    let b = Moon::generate("a\n\t:x | y\nb\n\t:z | w\n\n".to_string()).unwrap();
    for moon in [a, b] {
        assert_eq!(moon.projects.len(), 2);
        assert_eq!(moon.projects[1].project, "b");
        assert_eq!(moon.projects[1].tasks.len(), 1);
        assert_eq!(moon.projects[1].tasks[0].command, "b:z");
    }
}

#[test]
fn project_counts_follow_lines() {
    let text = "one\n\t:a | x\n\t:b | x\n\n  \ntwo\nthree\n\t:c | x\n";
    let moon = Moon::generate(text.to_string()).unwrap();
    let names: Vec<&str> = moon.projects.iter().map(|p| p.project.as_str()).collect();
    assert_eq!(names, vec!["one", "two", "three"]);
    let counts: Vec<usize> = moon.projects.iter().map(|p| p.tasks.len()).collect();
    assert_eq!(counts, vec![2, 0, 1]);
}

#[test]
fn carriage_returns_and_blank_lines_are_ignored() {
    let moon = Moon::generate("\r\n  app \r\n\t:dev | vite\r\n\t\r\n".to_string()).unwrap();
    assert_eq!(moon.projects.len(), 1);
    assert_eq!(moon.projects[0].project, "app");
    assert_eq!(moon.projects[0].tasks.len(), 1);
    assert_eq!(moon.projects[0].tasks[0].task, ":dev | vite");
    assert_eq!(moon.projects[0].tasks[0].command, "app:dev");
}

#[test]
fn empty_report_has_no_projects() {
    assert_eq!(Moon::generate(String::new()).unwrap().projects.len(), 0);
    assert_eq!(Moon::generate(" \n\n\t\n".to_string()).unwrap().projects.len(), 0);
}

#[test]
fn task_without_separator_fails() {
    let r = Moon::generate("p\n\t:build make\n".to_string());
    assert_eq!(r.unwrap_err(), FormatError::MissingSeparator);
}

#[test]
fn orphan_task_fails() {
    let r = Moon::generate("\t:build | make\np\n".to_string());
    assert_eq!(r.unwrap_err(), FormatError::OrphanTask);
}

#[test]
fn first_error_wins() {
    let r = Moon::generate("\t:x\np\n\t:y\n".to_string());
    assert_eq!(r.unwrap_err(), FormatError::OrphanTask);
}

#[test]
fn space_indented_line_is_a_project() {
    let moon = Moon::generate("p\n  q\n".to_string()).unwrap();
    assert_eq!(moon.projects.len(), 2);
    assert_eq!(moon.projects[1].project, "q");
}

#[test]
fn parsing_twice_gives_the_same() {
    let text = "a\n\t:x | y\nb\n\t:z | w\n\t:v | u\n";
    let one = Moon::generate(text.to_string()).unwrap();
    let two = Moon::generate(text.to_string()).unwrap();
    assert_eq!(format!("{one:?}"), format!("{two:?}"));
}

#[test]
fn identifiers_are_distinct() {
    let moon = Moon::generate("a\n\t:x | 1\n\t:y | 2\nb\n\t:x | 3\n".to_string()).unwrap();
    let mut ids: Vec<String> = Vec::new();
    for p in &moon.projects {
        ids.push(p.project.clone());
        for t in &p.tasks {
            ids.push(t.command.clone());
        }
    }
    let n = ids.len();
    ids.sort();
    ids.dedup();
    assert_eq!(ids.len(), n);
}

#[test]
fn constructors_keep_their_parts() {
    let t = Task::new("p".to_string(), ":a | b".to_string());
    let p = Project::new("p".to_string(), vec![t]);
    let m = Moon::new(vec![p]);
    assert_eq!(m.projects[0].project, "p");
    assert_eq!(m.projects[0].tasks[0].command, "p:a");
}
