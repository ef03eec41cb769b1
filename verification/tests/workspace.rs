use oryn::workspace::config::{open_project, remove_project, rename_project_entries, toggle_pin_document, toggle_pin_project, WorkspaceConfig, WorkspaceManager};
use oryn::workspace::documents::{document_index, scan_markdown_files, search_documents, sidebar_documents, sidebar_projects, split_file_name, is_markdown_file_name, FileEntry, ProjectListing, SidebarConversation};
use oryn::workspace::naming::{generate_unique_doc_path, renamed_document_file_name, renamed_project_dir_name};
use oryn::workspace::paths::same_path;
use oryn::workspace::changes::{triggers_reload, FsChange};

fn strings(v: &[&str]) -> Vec<String> {
    v.iter().map(|s| s.to_string()).collect()
}

fn entry(dir: &str, name: &str) -> FileEntry {
    FileEntry { path: format!("{}/{}", dir, name), file_name: name.to_string(), name_is_unicode: true, is_file: true }
}

fn titles(docs: &[SidebarConversation]) -> Vec<String> {
    docs.iter().map(|d| d.title.clone()).collect()
}

#[test]
fn new_manager_without_config_is_empty() {
    let m = WorkspaceManager::new(None);
    assert!(m.active_file_path.is_none());
    assert_eq!(m.search_query, "");
    assert!(m.config.open_projects.is_empty());
    assert!(m.config.pinned_projects.is_empty());
    assert!(m.config.pinned_documents.is_empty());
}

#[test]
fn new_manager_keeps_loaded_config() {
    let c = WorkspaceConfig { open_projects: strings(&["/p"]), pinned_projects: vec![], pinned_documents: strings(&["/d.md"]) };
    let m = WorkspaceManager::new(Some(c));
    assert_eq!(m.config.open_projects, strings(&["/p"]));
    assert_eq!(m.config.pinned_documents, strings(&["/d.md"]));
}

#[test]
fn toggling_a_pin_twice_restores_the_list() {
    let mut c = WorkspaceConfig::default();
    c.pinned_documents = strings(&["/a.md"]);
    toggle_pin_document(&mut c, "/b.md");
    assert_eq!(c.pinned_documents, strings(&["/a.md", "/b.md"]));
    toggle_pin_document(&mut c, "/b.md");
    assert_eq!(c.pinned_documents, strings(&["/a.md"]));
}

#[test]
fn toggling_a_pinned_project_unpins_it() {
    let mut c = WorkspaceConfig::default();
    c.pinned_projects = strings(&["/x", "/y", "/z"]);
    toggle_pin_project(&mut c, "/y");
    assert_eq!(c.pinned_projects, strings(&["/x", "/z"]));
    assert!(c.pinned_documents.is_empty());
}

#[test]
fn opening_a_project_twice_adds_it_once() {
    let mut c = WorkspaceConfig::default();
    assert!(open_project(&mut c, "/proj"));
    assert!(!open_project(&mut c, "/proj"));
    assert_eq!(c.open_projects, strings(&["/proj"]));
}

#[test]
fn removing_a_project_drops_it_from_open_and_pinned() {
    let mut c = WorkspaceConfig::default();
    c.open_projects = strings(&["/a", "/b", "/a"]);
    c.pinned_projects = strings(&["/a", "/c"]);
    remove_project(&mut c, "/a");
    assert_eq!(c.open_projects, strings(&["/b"]));
    assert_eq!(c.pinned_projects, strings(&["/c"]));
}

#[test]
fn renaming_a_project_updates_its_entries() {
    let mut c = WorkspaceConfig::default();
    c.open_projects = strings(&["/a", "/old"]);
    c.pinned_projects = strings(&["/old"]);
    rename_project_entries(&mut c, "/old", "/new");
    assert_eq!(c.open_projects, strings(&["/a", "/new"]));
    assert_eq!(c.pinned_projects, strings(&["/new"]));
}

#[test]
fn renaming_the_open_pinned_document() {
    let mut m = WorkspaceManager::new(None);
    m.active_file_path = Some("/d/old.md".to_string());
    m.config.pinned_documents = strings(&["/d/old.md"]);
    assert!(m.rename_document("/d/old.md", "/d/new.md"));
    assert_eq!(m.active_file_path.as_deref(), Some("/d/new.md"));
    assert_eq!(m.config.pinned_documents, strings(&["/d/new.md"]));
    assert!(!m.rename_document("/d/other.md", "/d/x.md"));
    assert_eq!(m.active_file_path.as_deref(), Some("/d/new.md"));
}

#[test]
fn deleting_the_open_document_closes_it() {
    let mut m = WorkspaceManager::new(None);
    m.active_file_path = Some("/d/a.md".to_string());
    assert!(!m.forget_document("/d/b.md"));
    assert!(m.active_file_path.is_some());
    assert!(m.forget_document("/d/a.md"));
    assert!(m.active_file_path.is_none());
}

#[test]
fn file_names_split_like_paths() {
    let (ext, stem) = split_file_name("notes.tar.md");
    assert_eq!(ext.map(|e| e.into_iter().collect::<String>()), Some("md".to_string()));
    assert_eq!(stem.into_iter().collect::<String>(), "notes.tar");
    let (ext, stem) = split_file_name(".md");
    assert!(ext.is_none());
    assert_eq!(stem.into_iter().collect::<String>(), ".md");
    let (ext, _) = split_file_name("..");
    assert!(ext.is_none());
    assert!(is_markdown_file_name("README.Md"));
    assert!(!is_markdown_file_name("notes.txt"));
    assert!(!is_markdown_file_name("md"));
}

#[test]
fn scan_lists_markdown_files_pinned_first_then_by_title() {
    let mut dir_entry = entry("/p", "folder.md");
    dir_entry.is_file = false;
    let entries = vec![
        entry("/p", "b.md"),
        entry("/p", "notes.txt"),
        entry("/p", "A.md"),
        entry("/p", "c.MD"),
        dir_entry,
        entry("/p", ".md"),
    ];
    let docs = scan_markdown_files(&entries, &strings(&["/p/c.MD"]));
    assert_eq!(titles(&docs), strings(&["c", "A", "b"]));
    assert!(docs[0].is_pinned);
    assert!(!docs[1].is_pinned);
    assert_eq!(docs[1].id, "/p/A.md");
}

#[test]
fn non_unicode_names_are_untitled() {
    let e = FileEntry { path: "/p/\u{fffd}.md".to_string(), file_name: "\u{fffd}.md".to_string(), name_is_unicode: false, is_file: true };
    let docs = scan_markdown_files(&vec![e], &vec![]);
    assert_eq!(titles(&docs), strings(&["Untitled"]));
}

#[test]
fn search_is_case_insensitive() {
    let entries = vec![entry("/p", "Notes.md"), entry("/p", "Todo.md"), entry("/p", "annotated.md")];
    let docs = scan_markdown_files(&entries, &vec![]);
    let found = search_documents(docs, "NOT");
    assert_eq!(titles(&found), strings(&["annotated", "Notes"]));
    let all = sidebar_documents(&entries, &vec![], "");
    assert_eq!(all.len(), 3);
}

#[test]
fn projects_are_filtered_and_sorted() {
    let listings = vec![
        ProjectListing { path: "/w/zeta".to_string(), file_name: Some("zeta".to_string()), entries: vec![entry("/w/zeta", "plan.md")] },
        ProjectListing { path: "/w/alpha".to_string(), file_name: Some("alpha".to_string()), entries: vec![entry("/w/alpha", "other.md")] },
        ProjectListing { path: "/w/beta".to_string(), file_name: None, entries: vec![] },
    ];
    let all = sidebar_projects(&listings, &strings(&["/w/zeta"]), &vec![], "");
    let names: Vec<String> = all.iter().map(|p| p.name.clone()).collect();
    assert_eq!(names, strings(&["zeta", "/w/beta", "alpha"]));
    assert!(all[0].is_pinned);
    let planned = sidebar_projects(&listings, &vec![], &vec![], "PLAN");
    let names: Vec<String> = planned.iter().map(|p| p.name.clone()).collect();
    assert_eq!(names, strings(&["zeta"]));
    assert_eq!(planned[0].conversations.len(), 1);
    let by_name = sidebar_projects(&listings, &vec![], &vec![], "alp");
    assert_eq!(by_name.len(), 1);
    assert_eq!(by_name[0].name, "alpha");
    assert!(by_name[0].conversations.is_empty());
}

#[test]
fn unique_document_path_takes_the_first_free_name() {
    let taken = strings(&["Untitled Document.md", "Untitled Document 1.md", "other.md"]);
    assert_eq!(generate_unique_doc_path("/docs", "Untitled Document", &taken), "/docs/Untitled Document 2.md");
    assert_eq!(generate_unique_doc_path("/docs/", "Untitled Document", &vec![]), "/docs/Untitled Document.md");
    assert_eq!(generate_unique_doc_path("", "x", &strings(&["x.md"])), "x 1.md");
}

#[test]
fn rename_names() {
    assert_eq!(renamed_document_file_name("  Report "), Some("Report.md".to_string()));
    assert_eq!(renamed_document_file_name("notes.MD"), Some("notes.MD".to_string()));
    assert_eq!(renamed_document_file_name(" \t "), None);
    assert_eq!(renamed_project_dir_name(" New Project "), Some("New Project".to_string()));
    assert_eq!(renamed_project_dir_name(""), None);
}

#[test]
fn document_index_finds_first_match() {
    let docs = vec![
        SidebarConversation { id: "/a".to_string(), title: "a".to_string(), is_pinned: false },
        SidebarConversation { id: "/b".to_string(), title: "b".to_string(), is_pinned: false },
    ];
    assert_eq!(document_index(&docs, "/b"), Some(1));
    assert_eq!(document_index(&docs, "/c"), None);
}

#[test]
fn paths_are_compared_by_components() {
    assert!(same_path("/d/a.md", "/d//a.md"));
    assert!(same_path("/d/./a.md", "/d/a.md/"));
    assert!(same_path("./d/a.md", "./d/a.md"));
    assert!(!same_path("d/a.md", "./d/a.md"));
    assert!(!same_path("/d/a.md", "d/a.md"));
    assert!(!same_path("/d/../a.md", "/a.md"));
    assert!(!same_path("/d/a.md", "/d/b.md"));
}

#[test]
fn the_open_document_is_found_by_components() {
    let mut m = WorkspaceManager::new(None);
    m.active_file_path = Some("/d//a.md".to_string());
    assert!(!m.rename_document("/d/a.md", "/d/b.md"));
    assert_eq!(m.active_file_path, Some("/d/b.md".to_string()));
    assert!(m.forget_document("/d/./b.md"));
    assert_eq!(m.active_file_path, None);
}

#[test]
fn only_creations_removals_and_modifications_reload() {
    assert!(triggers_reload(FsChange::Create));
    assert!(triggers_reload(FsChange::Remove));
    assert!(triggers_reload(FsChange::Modify));
    assert!(!triggers_reload(FsChange::Access));
    assert!(!triggers_reload(FsChange::Any));
    assert!(!triggers_reload(FsChange::Other));
}
