use finsight::migrations::{is_applied, migration_registry, pending_migrations, Migration};

#[test]
fn a_fresh_ledger_has_every_migration_pending() {
    let applied: Vec<String> = Vec::new();
    assert_eq!(pending_migrations(&applied), vec![Migration::AddArchivedColumn]);
    assert_eq!(pending_migrations(&applied), migration_registry());
}

#[test]
fn an_applied_migration_does_not_run_again() {
    let applied = vec!["001_add_archived_column".to_string()];
    assert!(is_applied(&applied, Migration::AddArchivedColumn));
    assert_eq!(pending_migrations(&applied), Vec::<Migration>::new());
}

#[test]
fn other_names_in_the_record_do_not_count() {
    let applied = vec!["000_initial".to_string(), "001_add_archived".to_string()];
    assert!(!is_applied(&applied, Migration::AddArchivedColumn));
    assert_eq!(pending_migrations(&applied), vec![Migration::AddArchivedColumn]);
}

#[test]
fn a_migration_has_a_name_and_a_statement() {
    let m = Migration::AddArchivedColumn;
    assert_eq!(m.name(), "001_add_archived_column");
    assert_eq!(
        m.sql(),
        "ALTER TABLE accounts ADD COLUMN archived BOOLEAN NOT NULL DEFAULT FALSE"
    );
}
