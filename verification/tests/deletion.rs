use finsight::accounts::add_account;
use finsight::categories::{add_category, delete_category, get_all_categories, update_category};
use finsight::database::{init_db, seed_system_data, sentinel_label};
use finsight::deletion::{DeletePlan, Stage, Step};
use finsight::engine::{Command, Engine, Reply};
use finsight::error::StoreError;
use finsight::records::Category;
use finsight::store::Store;
use finsight::transactions::{add_transaction, get_transactions};

fn category(id: i64, name: &str, parent_id: Option<i64>) -> Category {
    Category { id, name: name.to_string(), parent_id }
}

fn pay(store: &mut Store, category_id: i64) {
    add_transaction(
        store,
        1,
        250,
        "debit".to_string(),
        "shop".to_string(),
        "2025-03-01".to_string(),
        category_id,
    )
    .unwrap();
}

/// Uncategorized (1), Food (2), Groceries (3, under 2), Organic (4, under 3),
/// Drinks (5, under 2), one account, one transaction in each of 2, 3 and 5.
fn forest() -> Store {
    let mut store = init_db().unwrap();
    add_category(&mut store, "Food".to_string(), None).unwrap();
    add_category(&mut store, "Groceries".to_string(), Some(2)).unwrap();
    add_category(&mut store, "Organic".to_string(), Some(3)).unwrap();
    add_category(&mut store, "Drinks".to_string(), Some(2)).unwrap();
    add_account(&mut store, "Main".to_string(), "checking".to_string()).unwrap();
    pay(&mut store, 2);
    pay(&mut store, 3);
    pay(&mut store, 5);
    store
}

fn plan_of(step: Step) -> (DeletePlan, Command) {
    match step {
        Step::Run(plan, command) => (plan, command),
        Step::Finish(result) => panic!("the plan ended early: {:?}", result),
    }
}

#[test]
fn a_new_ledger_holds_the_sentinel_only() {
    let store = init_db().unwrap();
    assert_eq!(sentinel_label(), "Uncategorized");
    assert_eq!(get_all_categories(&store).unwrap(), vec![category(1, "Uncategorized", None)]);
}

#[test]
fn seeding_twice_adds_nothing() {
    let mut store = Store::new();
    assert_eq!(get_all_categories(&store).unwrap().len(), 0);
    seed_system_data(&mut store).unwrap();
    seed_system_data(&mut store).unwrap();
    assert_eq!(get_all_categories(&store).unwrap(), vec![category(1, "Uncategorized", None)]);
}

#[test]
fn every_child_inherits_the_parent_of_the_deleted_category() {
    let mut store = forest();
    delete_category(&mut store, 2).unwrap();
    assert_eq!(
        get_all_categories(&store).unwrap(),
        vec![
            category(1, "Uncategorized", None),
            category(3, "Groceries", None),
            category(4, "Organic", Some(3)),
            category(5, "Drinks", None),
        ]
    );
}

#[test]
fn a_grandchild_keeps_its_parent() {
    let mut store = forest();
    delete_category(&mut store, 3).unwrap();
    assert_eq!(
        get_all_categories(&store).unwrap(),
        vec![
            category(1, "Uncategorized", None),
            category(2, "Food", None),
            category(4, "Organic", Some(2)),
            category(5, "Drinks", Some(2)),
        ]
    );
}

#[test]
fn only_the_transactions_of_the_deleted_category_move() {
    let mut store = forest();
    delete_category(&mut store, 3).unwrap();
    let filed: Vec<(i64, i64)> =
        get_transactions(&store, 1).unwrap().iter().map(|t| (t.id, t.category_id)).collect();
    assert_eq!(filed, vec![(1, 2), (2, 1), (3, 5)]);
}

#[test]
fn a_leaf_without_transactions_just_goes() {
    let mut store = forest();
    let before = get_transactions(&store, 1).unwrap();
    delete_category(&mut store, 4).unwrap();
    assert_eq!(
        get_all_categories(&store).unwrap(),
        vec![
            category(1, "Uncategorized", None),
            category(2, "Food", None),
            category(3, "Groceries", Some(2)),
            category(5, "Drinks", Some(2)),
        ]
    );
    assert_eq!(get_transactions(&store, 1).unwrap(), before);
}

#[test]
fn the_sentinel_cannot_be_deleted() {
    let mut store = forest();
    let before = get_all_categories(&store).unwrap();
    assert_eq!(delete_category(&mut store, 1), Err(StoreError::SentinelProtected));
    assert_eq!(get_all_categories(&store).unwrap(), before);
}

#[test]
fn a_missing_category_cannot_be_deleted() {
    let mut store = forest();
    let before = get_all_categories(&store).unwrap();
    assert_eq!(delete_category(&mut store, 42), Err(StoreError::NotFound));
    assert_eq!(get_all_categories(&store).unwrap(), before);
}

#[test]
fn without_a_sentinel_nothing_is_deleted() {
    let mut store = Store::new();
    add_category(&mut store, "Food".to_string(), None).unwrap();
    add_category(&mut store, "Groceries".to_string(), Some(1)).unwrap();
    let before = get_all_categories(&store).unwrap();
    assert_eq!(delete_category(&mut store, 1), Err(StoreError::SentinelMissing));
    assert_eq!(get_all_categories(&store).unwrap(), before);
}

#[test]
fn a_renamed_sentinel_is_missing() {
    let mut store = forest();
    update_category(&mut store, 1, "Misc".to_string(), None).unwrap();
    assert_eq!(delete_category(&mut store, 5), Err(StoreError::SentinelMissing));
    assert_eq!(get_all_categories(&store).unwrap().len(), 5);
    assert_eq!(get_transactions(&store, 1).unwrap()[2].category_id, 5);
}

#[test]
fn the_first_category_of_the_name_is_the_sentinel() {
    let mut store = forest();
    add_category(&mut store, "Uncategorized".to_string(), None).unwrap();
    assert_eq!(delete_category(&mut store, 6), Ok(()));
    assert_eq!(delete_category(&mut store, 1), Err(StoreError::SentinelProtected));
    delete_category(&mut store, 5).unwrap();
    assert_eq!(get_transactions(&store, 1).unwrap()[2].category_id, 1);
}

#[test]
fn a_category_that_is_its_own_parent_keeps_its_children() {
    let mut store = forest();
    update_category(&mut store, 2, "Food".to_string(), Some(2)).unwrap();
    let before = get_all_categories(&store).unwrap();
    let filed = get_transactions(&store, 1).unwrap();
    assert_eq!(delete_category(&mut store, 2), Err(StoreError::Constraint));
    assert_eq!(get_all_categories(&store).unwrap(), before);
    assert_eq!(get_transactions(&store, 1).unwrap(), filed);

    // alone in its loop, it can go
    update_category(&mut store, 4, "Organic".to_string(), Some(4)).unwrap();
    assert_eq!(delete_category(&mut store, 4), Ok(()));
    assert_eq!(get_all_categories(&store).unwrap().len(), 4);
}

#[test]
fn a_parent_must_exist() {
    let mut store = init_db().unwrap();
    assert_eq!(add_category(&mut store, "Food".to_string(), Some(9)), Err(StoreError::Constraint));
    assert_eq!(add_category(&mut store, "Loop".to_string(), Some(2)), Ok(()));
    assert_eq!(
        update_category(&mut store, 2, "Loop".to_string(), Some(9)),
        Err(StoreError::Constraint)
    );
    assert_eq!(update_category(&mut store, 9, "Nobody".to_string(), Some(9)), Ok(()));
    assert_eq!(
        get_all_categories(&store).unwrap(),
        vec![category(1, "Uncategorized", None), category(2, "Loop", Some(2))]
    );
}

#[test]
fn the_plan_sends_its_commands_in_order() {
    let (plan, command) = plan_of(DeletePlan::start(3));
    assert_eq!(command, Command::Begin);
    assert_eq!(plan, DeletePlan { category_id: 3, stage: Stage::Begin });

    let (plan, command) = plan_of(plan.resume(Reply::Done));
    assert_eq!(command, Command::SelectChildren { parent_id: 3 });

    let (plan, command) = plan_of(plan.resume(Reply::Ids(vec![4])));
    assert_eq!(command, Command::SelectParent { category_id: 3 });

    let (plan, command) = plan_of(plan.resume(Reply::Parents(vec![Some(2)])));
    assert_eq!(command, Command::ReparentChildren { from: 3, to: Some(2) });

    let (plan, command) = plan_of(plan.resume(Reply::Done));
    assert_eq!(command, Command::SelectSentinel);

    let (plan, command) = plan_of(plan.resume(Reply::Ids(vec![1])));
    assert_eq!(command, Command::ReassignTransactions { from: 3, to: 1 });

    let (plan, command) = plan_of(plan.resume(Reply::Done));
    assert_eq!(command, Command::DeleteCategory { category_id: 3 });

    let (plan, command) = plan_of(plan.resume(Reply::Affected(1)));
    assert_eq!(command, Command::Commit);

    assert_eq!(plan.resume(Reply::Done), Step::Finish(Ok(())));
}

#[test]
fn without_children_the_plan_skips_the_parent() {
    let (plan, _) = plan_of(DeletePlan::start(5));
    let (plan, _) = plan_of(plan.resume(Reply::Done));
    let (plan, command) = plan_of(plan.resume(Reply::Ids(vec![])));
    assert_eq!(command, Command::SelectSentinel);
    assert_eq!(plan.stage, Stage::Sentinel);
}

#[test]
fn a_missing_parent_row_makes_the_children_roots() {
    let plan = DeletePlan { category_id: 5, stage: Stage::Parent };
    let (_, command) = plan_of(plan.resume(Reply::Parents(vec![])));
    assert_eq!(command, Command::ReparentChildren { from: 5, to: None });
    let plan = DeletePlan { category_id: 5, stage: Stage::Parent };
    let (_, command) = plan_of(plan.handle_orphaned_categories(Reply::Parents(vec![None])));
    assert_eq!(command, Command::ReparentChildren { from: 5, to: None });
}

#[test]
fn a_failure_is_reported_after_the_rollback() {
    let broken = StoreError::Engine("database is locked".to_string());
    let plan = DeletePlan { category_id: 5, stage: Stage::Reassign };
    let (plan, command) = plan_of(plan.resume(Reply::Failed(broken)));
    assert_eq!(command, Command::Rollback);
    let failure = StoreError::Engine("database is locked".to_string());
    assert_eq!(plan.stage, Stage::Rollback(StoreError::Engine("database is locked".to_string())));
    let again = StoreError::Engine("cannot rollback".to_string());
    assert_eq!(plan.resume(Reply::Failed(again)), Step::Finish(Err(failure)));
}

#[test]
fn a_failed_begin_ends_the_plan_at_once() {
    let (plan, _) = plan_of(DeletePlan::start(5));
    assert_eq!(
        plan.resume(Reply::Failed(StoreError::TransactionState)),
        Step::Finish(Err(StoreError::TransactionState))
    );
}

#[test]
fn an_unexpected_reply_undoes_the_deletion() {
    let plan = DeletePlan { category_id: 5, stage: Stage::Children };
    let (plan, command) = plan_of(plan.resume(Reply::Affected(3)));
    assert_eq!(command, Command::Rollback);
    assert_eq!(plan.resume(Reply::Done), Step::Finish(Err(StoreError::Protocol)));

    let plan = DeletePlan { category_id: 5, stage: Stage::Sentinel };
    let (plan, _) = plan_of(plan.handle_orphaned_transactions(Reply::Ids(vec![])));
    assert_eq!(plan.stage, Stage::Rollback(StoreError::SentinelMissing));
    let plan = DeletePlan { category_id: 5, stage: Stage::Sentinel };
    let (plan, _) = plan_of(plan.resume(Reply::Ids(vec![5])));
    assert_eq!(plan.stage, Stage::Rollback(StoreError::SentinelProtected));
    let plan = DeletePlan { category_id: 5, stage: Stage::Removal };
    let (plan, _) = plan_of(plan.resume(Reply::Affected(0)));
    assert_eq!(plan.stage, Stage::Rollback(StoreError::NotFound));
    let plan = DeletePlan { category_id: 5, stage: Stage::Commit };
    let (plan, command) = plan_of(plan.resume(Reply::Failed(StoreError::Full)));
    assert_eq!(command, Command::Rollback);
    assert_eq!(plan.stage, Stage::Rollback(StoreError::Full));
}

#[test]
fn the_engine_answers_each_command() {
    let mut engine = Engine::open(forest());
    assert_eq!(engine.execute(Command::Commit), Reply::Failed(StoreError::TransactionState));
    assert_eq!(engine.execute(Command::Rollback), Reply::Failed(StoreError::TransactionState));
    assert_eq!(engine.execute(Command::Begin), Reply::Done);
    assert_eq!(engine.execute(Command::Begin), Reply::Failed(StoreError::TransactionState));
    assert_eq!(engine.execute(Command::SelectChildren { parent_id: 2 }), Reply::Ids(vec![3, 5]));
    assert_eq!(engine.execute(Command::SelectChildren { parent_id: 4 }), Reply::Ids(vec![]));
    assert_eq!(
        engine.execute(Command::SelectParent { category_id: 3 }),
        Reply::Parents(vec![Some(2)])
    );
    assert_eq!(
        engine.execute(Command::SelectParent { category_id: 2 }),
        Reply::Parents(vec![None])
    );
    assert_eq!(engine.execute(Command::SelectParent { category_id: 9 }), Reply::Parents(vec![]));
    assert_eq!(engine.execute(Command::SelectSentinel), Reply::Ids(vec![1]));
    assert_eq!(
        engine.execute(Command::DeleteCategory { category_id: 2 }),
        Reply::Failed(StoreError::Constraint)
    );
    assert_eq!(
        engine.execute(Command::ReparentChildren { from: 2, to: Some(9) }),
        Reply::Failed(StoreError::Constraint)
    );
    assert_eq!(engine.execute(Command::ReparentChildren { from: 4, to: Some(9) }), Reply::Done);
    assert_eq!(
        engine.execute(Command::ReassignTransactions { from: 2, to: 9 }),
        Reply::Failed(StoreError::Constraint)
    );
    assert_eq!(engine.execute(Command::ReparentChildren { from: 2, to: None }), Reply::Done);
    assert_eq!(engine.execute(Command::ReassignTransactions { from: 2, to: 1 }), Reply::Done);
    assert_eq!(engine.execute(Command::DeleteCategory { category_id: 2 }), Reply::Affected(1));
    assert_eq!(engine.execute(Command::DeleteCategory { category_id: 2 }), Reply::Affected(0));
    assert_eq!(get_all_categories(engine.store()).unwrap().len(), 4);
    assert_eq!(engine.execute(Command::Rollback), Reply::Done);
    assert_eq!(get_all_categories(engine.store()).unwrap().len(), 5);
    let store = engine.close();
    assert_eq!(get_transactions(&store, 1).unwrap()[0].category_id, 2);
}

#[test]
fn closing_the_engine_undoes_an_open_transaction() {
    let mut engine = Engine::open(forest());
    assert_eq!(engine.execute(Command::Begin), Reply::Done);
    assert_eq!(engine.execute(Command::DeleteCategory { category_id: 4 }), Reply::Affected(1));
    let store = engine.close();
    assert_eq!(get_all_categories(&store).unwrap().len(), 5);

    let mut engine = Engine::open(store);
    assert_eq!(engine.execute(Command::Begin), Reply::Done);
    assert_eq!(engine.execute(Command::DeleteCategory { category_id: 4 }), Reply::Affected(1));
    assert_eq!(engine.execute(Command::Commit), Reply::Done);
    assert_eq!(get_all_categories(&engine.close()).unwrap().len(), 4);
}

#[test]
fn each_command_has_its_statement_and_values() {
    let reparent = Command::ReparentChildren { from: 3, to: None };
    assert_eq!(reparent.sql(), "UPDATE categories SET parent_id = ? WHERE parent_id = ?");
    assert_eq!(reparent.params(), vec![None, Some(3)]);
    let reassign = Command::ReassignTransactions { from: 3, to: 1 };
    assert_eq!(reassign.sql(), "UPDATE transactions SET category_id = ? WHERE category_id = ?");
    assert_eq!(reassign.params(), vec![Some(1), Some(3)]);
    assert_eq!(Command::SelectChildren { parent_id: 7 }.params(), vec![Some(7)]);
    assert_eq!(Command::SelectParent { category_id: 7 }.params(), vec![Some(7)]);
    assert_eq!(Command::DeleteCategory { category_id: 7 }.params(), vec![Some(7)]);
    assert_eq!(Command::DeleteCategory { category_id: 7 }.sql(), "DELETE FROM categories WHERE id = ?");
    assert_eq!(Command::Begin.sql(), "BEGIN");
    assert_eq!(Command::Commit.sql(), "COMMIT");
    assert_eq!(Command::Rollback.sql(), "ROLLBACK");
    assert_eq!(Command::SelectSentinel.params(), Vec::<Option<i64>>::new());
}

#[test]
fn every_failure_has_its_message() {
    assert_eq!(StoreError::Engine("disk I/O error".to_string()).message(), "disk I/O error");
    assert_eq!(StoreError::Constraint.message(), "FOREIGN KEY constraint failed");
    assert_eq!(
        StoreError::SentinelMissing.message(),
        "the \"Uncategorized\" category does not exist"
    );
    assert_eq!(
        StoreError::SentinelProtected.message(),
        "the \"Uncategorized\" category cannot be deleted"
    );
    assert_eq!(StoreError::NotFound.message(), "no row with this id exists");
    assert_eq!(StoreError::Full.message(), "the table has no id left");
    assert_eq!(
        StoreError::TransactionState.message(),
        "no transaction can be begun or ended here"
    );
    assert_eq!(StoreError::Protocol.message(), "the storage engine sent an unexpected reply");
}
