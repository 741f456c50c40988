use tooling::templates::{plan, TemplateAction, TemplateSet, TreeEntry};

fn entry(rel_path: &str, is_dir: bool) -> TreeEntry {
    TreeEntry {
        rel_path: rel_path.to_string(),
        is_dir,
    }
}

fn set() -> TemplateSet {
    TemplateSet::new("product", "/home/user", "/src/project", "app")
}

#[test]
fn template_set_layout() {
    let s = set();
    assert_eq!(s.name, "app");
    assert_eq!(s.source_root, "/src/project/app-templates");
    assert_eq!(s.destination_root, "/home/user/.product/app-templates");
}

#[test]
fn directories_before_files() {
    let s = set();
    let entries = vec![
        entry("a", true),
        entry("a/f.txt", false),
        entry("b", true),
        entry("b/g.txt", false),
    ];
    let p = plan(&s, &entries);
    assert_eq!(
        p.actions,
        vec![
            TemplateAction::CreateDirectory {
                dest: "/home/user/.product/app-templates/a".to_string(),
            },
            TemplateAction::CreateDirectory {
                dest: "/home/user/.product/app-templates/b".to_string(),
            },
            TemplateAction::CopyFile {
                src: "/src/project/app-templates/a/f.txt".to_string(),
                dest: "/home/user/.product/app-templates/a/f.txt".to_string(),
            },
            TemplateAction::CopyFile {
                src: "/src/project/app-templates/b/g.txt".to_string(),
                dest: "/home/user/.product/app-templates/b/g.txt".to_string(),
            },
        ]
    );
}

#[test]
fn every_entry_is_visited_in_order() {
    let s = set();
    let entries = vec![
        entry("a", true),
        entry("a/f.txt", false),
        entry("b", true),
        entry("b/g.txt", false),
    ];
    let p = plan(&s, &entries);
    assert_eq!(
        p.visited,
        vec![
            "/src/project/app-templates/a".to_string(),
            "/src/project/app-templates/a/f.txt".to_string(),
            "/src/project/app-templates/b".to_string(),
            "/src/project/app-templates/b/g.txt".to_string(),
        ]
    );
}

#[test]
fn empty_source_plans_nothing() {
    let s = set();
    let entries: Vec<TreeEntry> = Vec::new();
    let p = plan(&s, &entries);
    assert!(p.actions.is_empty());
    assert!(p.visited.is_empty());
}

#[test]
fn directories_only_still_planned() {
    let s = set();
    let entries = vec![entry("x", true), entry("x/y", true)];
    let p = plan(&s, &entries);
    assert_eq!(
        p.actions,
        vec![
            TemplateAction::CreateDirectory {
                dest: "/home/user/.product/app-templates/x".to_string(),
            },
            TemplateAction::CreateDirectory {
                dest: "/home/user/.product/app-templates/x/y".to_string(),
            },
        ]
    );
}

#[test]
fn plan_ignores_destination_state() {
    // The plan is a function of the source listing alone: planning the same
    // listing twice yields the same actions, which is what makes a second
    // run (after delete-and-recreate) end in the same destination tree.
    let s = set();
    let entries = vec![entry("a", true), entry("a/f.txt", false)];
    let first = plan(&s, &entries);
    let second = plan(&s, &entries);
    assert_eq!(first, second);
}
