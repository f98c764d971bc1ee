//! The engine in memory and SQLite, side by side: the same commands, the
//! same replies, the same tables afterwards.

use finsight::accounts::add_account;
use finsight::categories::{add_category, delete_category, get_all_categories};
use finsight::database::init_db;
use finsight::deletion::{DeletePlan, Step};
use finsight::engine::{Command, Engine, Reply};
use finsight::error::StoreError;
use finsight::records::Category;
use finsight::store::Store;
use finsight::transactions::{add_transaction, get_transactions};
use sqlx::{Connection, Row, SqliteConnection};

const SCHEMA: [&str; 3] = [
    "CREATE TABLE accounts (
        id INTEGER PRIMARY KEY AUTOINCREMENT,
        name TEXT NOT NULL,
        account_type TEXT NOT NULL,
        archived BOOLEAN NOT NULL DEFAULT FALSE
    )",
    "CREATE TABLE categories (
        id INTEGER PRIMARY KEY AUTOINCREMENT,
        name TEXT NOT NULL,
        parent_id INTEGER,
        FOREIGN KEY (parent_id) REFERENCES categories(id)
    )",
    "CREATE TABLE transactions (
        id INTEGER PRIMARY KEY AUTOINCREMENT,
        account_id INTEGER NOT NULL REFERENCES accounts(id),
        amount_cents INTEGER NOT NULL,
        transaction_type TEXT NOT NULL,
        description TEXT NOT NULL,
        transaction_date TEXT NOT NULL,
        category_id INTEGER NOT NULL REFERENCES categories(id)
    )",
];

fn failure(error: sqlx::Error) -> StoreError {
    let violation = match &error {
        sqlx::Error::Database(e) => e.is_foreign_key_violation(),
        _ => false,
    };
    if violation {
        StoreError::Constraint
    } else {
        StoreError::Engine(error.to_string())
    }
}

async fn send(conn: &mut SqliteConnection, command: Command) -> Reply {
    let mut query = sqlx::query(command.sql());
    for value in command.params() {
        query = query.bind(value);
    }
    match command {
        Command::SelectChildren { .. } | Command::SelectSentinel => {
            match query.fetch_all(&mut *conn).await {
                Ok(rows) => Reply::Ids(rows.iter().map(|row| row.get::<i64, _>(0)).collect()),
                Err(e) => Reply::Failed(failure(e)),
            }
        }
        Command::SelectParent { .. } => match query.fetch_all(&mut *conn).await {
            Ok(rows) => {
                Reply::Parents(rows.iter().map(|row| row.get::<Option<i64>, _>(0)).collect())
            }
            Err(e) => Reply::Failed(failure(e)),
        },
        Command::DeleteCategory { .. } => match query.execute(&mut *conn).await {
            Ok(done) => Reply::Affected(done.rows_affected()),
            Err(e) => Reply::Failed(failure(e)),
        },
        _ => match query.execute(&mut *conn).await {
            Ok(_) => Reply::Done,
            Err(e) => Reply::Failed(failure(e)),
        },
    }
}

/// A ledger in SQLite and its twin in memory, with the sentinel, the
/// categories `categories` (name and parent) and one account with one
/// transaction in each category of `filed`.
async fn twins(
    categories: &[(&str, Option<i64>)],
    filed: &[i64],
) -> (SqliteConnection, Store) {
    let mut conn = SqliteConnection::connect("sqlite::memory:").await.unwrap();
    for statement in SCHEMA {
        sqlx::query(statement).execute(&mut conn).await.unwrap();
    }
    let mut store = init_db().unwrap();
    sqlx::query("INSERT INTO categories (name, parent_id) VALUES ('Uncategorized', NULL)")
        .execute(&mut conn)
        .await
        .unwrap();
    for (name, parent_id) in categories {
        sqlx::query("INSERT INTO categories (name, parent_id) VALUES (?, ?)")
            .bind(*name)
            .bind(*parent_id)
            .execute(&mut conn)
            .await
            .unwrap();
        add_category(&mut store, name.to_string(), *parent_id).unwrap();
    }
    sqlx::query("INSERT INTO accounts (name, account_type) VALUES ('Main', 'checking')")
        .execute(&mut conn)
        .await
        .unwrap();
    add_account(&mut store, "Main".to_string(), "checking".to_string()).unwrap();
    for category_id in filed {
        sqlx::query(
            "INSERT INTO transactions (account_id, amount_cents, transaction_type, description,
             transaction_date, category_id) VALUES (1, 250, 'debit', 'shop', '2025-03-01', ?)",
        )
        .bind(*category_id)
        .execute(&mut conn)
        .await
        .unwrap();
        add_transaction(
            &mut store,
            1,
            250,
            "debit".to_string(),
            "shop".to_string(),
            "2025-03-01".to_string(),
            *category_id,
        )
        .unwrap();
    }
    (conn, store)
}

async fn categories_of(conn: &mut SqliteConnection) -> Vec<Category> {
    sqlx::query("SELECT id, name, parent_id FROM categories ORDER BY id")
        .fetch_all(conn)
        .await
        .unwrap()
        .iter()
        .map(|row| Category { id: row.get(0), name: row.get(1), parent_id: row.get(2) })
        .collect()
}

async fn filing_of(conn: &mut SqliteConnection) -> Vec<(i64, i64)> {
    sqlx::query("SELECT id, category_id FROM transactions ORDER BY id")
        .fetch_all(conn)
        .await
        .unwrap()
        .iter()
        .map(|row| (row.get(0), row.get(1)))
        .collect()
}

/// Deletes `id` on both ledgers, command by command, and holds every reply
/// and the tables afterwards against each other.
async fn delete_on_both(
    categories: &[(&str, Option<i64>)],
    filed: &[i64],
    id: i64,
) -> (Result<(), StoreError>, Vec<Category>, Vec<(i64, i64)>) {
    let (mut conn, store) = twins(categories, filed).await;
    let mut direct = store.snapshot();
    let mut engine = Engine::open(store);
    let mut step = DeletePlan::start(id);
    let result = loop {
        match step {
            Step::Finish(result) => break result,
            Step::Run(plan, command) => {
                let reply = send(&mut conn, command).await;
                assert_eq!(engine.execute(command), reply, "reply to {:?}", command);
                step = plan.resume(reply);
            }
        }
    };
    let store = engine.close();
    let rows = categories_of(&mut conn).await;
    let filing = filing_of(&mut conn).await;
    assert_eq!(get_all_categories(&store).unwrap(), rows);
    let in_memory: Vec<(i64, i64)> =
        get_transactions(&store, 1).unwrap().iter().map(|t| (t.id, t.category_id)).collect();
    assert_eq!(in_memory, filing);

    assert_eq!(delete_category(&mut direct, id), result);
    assert_eq!(get_all_categories(&direct).unwrap(), rows);
    (result, rows, filing)
}

fn block_on<F: std::future::Future>(work: F) -> F::Output {
    tokio::runtime::Builder::new_current_thread().enable_all().build().unwrap().block_on(work)
}

fn category(id: i64, name: &str, parent_id: Option<i64>) -> Category {
    Category { id, name: name.to_string(), parent_id }
}

const FOREST: [(&str, Option<i64>); 4] =
    [("Food", None), ("Groceries", Some(2)), ("Organic", Some(3)), ("Drinks", Some(2))];

#[test]
fn sqlite_promotes_the_children_of_a_root() {
    let (result, rows, filing) = block_on(delete_on_both(&FOREST, &[2, 3, 5], 2));
    assert_eq!(result, Ok(()));
    assert_eq!(
        rows,
        vec![
            category(1, "Uncategorized", None),
            category(3, "Groceries", None),
            category(4, "Organic", Some(3)),
            category(5, "Drinks", None),
        ]
    );
    assert_eq!(filing, vec![(1, 1), (2, 3), (3, 5)]);
}

#[test]
fn sqlite_relinks_the_middle_of_a_chain() {
    let (result, rows, filing) = block_on(delete_on_both(&FOREST, &[2, 3, 5], 3));
    assert_eq!(result, Ok(()));
    assert_eq!(
        rows,
        vec![
            category(1, "Uncategorized", None),
            category(2, "Food", None),
            category(4, "Organic", Some(2)),
            category(5, "Drinks", Some(2)),
        ]
    );
    assert_eq!(filing, vec![(1, 2), (2, 1), (3, 5)]);
}

#[test]
fn sqlite_removes_a_leaf() {
    let (result, rows, filing) = block_on(delete_on_both(&FOREST, &[2, 3], 4));
    assert_eq!(result, Ok(()));
    assert_eq!(rows.len(), 4);
    assert_eq!(filing, vec![(1, 2), (2, 3)]);
}

#[test]
fn sqlite_keeps_a_missing_category_missing() {
    let (result, rows, filing) = block_on(delete_on_both(&FOREST, &[2, 3, 5], 42));
    assert_eq!(result, Err(StoreError::NotFound));
    assert_eq!(rows.len(), 5);
    assert_eq!(filing, vec![(1, 2), (2, 3), (3, 5)]);
}

#[test]
fn sqlite_keeps_the_sentinel() {
    let (result, rows, filing) = block_on(delete_on_both(&FOREST, &[1, 2], 1));
    assert_eq!(result, Err(StoreError::SentinelProtected));
    assert_eq!(rows.len(), 5);
    assert_eq!(filing, vec![(1, 1), (2, 2)]);
}

#[test]
fn sqlite_takes_the_first_of_two_sentinels() {
    let named = [("Food", None), ("Uncategorized", Some(2)), ("Drinks", Some(3))];
    let (result, rows, filing) = block_on(delete_on_both(&named, &[3, 4], 3));
    assert_eq!(result, Ok(()));
    assert_eq!(
        rows,
        vec![
            category(1, "Uncategorized", None),
            category(2, "Food", None),
            category(4, "Drinks", Some(2)),
        ]
    );
    assert_eq!(filing, vec![(1, 1), (2, 4)]);
}

#[test]
fn sqlite_refuses_to_strand_the_children_of_a_loop() {
    // Loop (2) is its own parent and has the child Inner (3)
    let looped = [("Loop", Some(2)), ("Inner", Some(2))];
    let (result, rows, filing) = block_on(delete_on_both(&looped, &[2, 3], 2));
    assert_eq!(result, Err(StoreError::Constraint));
    assert_eq!(
        rows,
        vec![
            category(1, "Uncategorized", None),
            category(2, "Loop", Some(2)),
            category(3, "Inner", Some(2)),
        ]
    );
    assert_eq!(filing, vec![(1, 2), (2, 3)]);
}

#[test]
fn sqlite_lets_a_lone_loop_go() {
    let looped = [("Loop", Some(2))];
    let (result, rows, filing) = block_on(delete_on_both(&looped, &[2], 2));
    assert_eq!(result, Ok(()));
    assert_eq!(rows, vec![category(1, "Uncategorized", None)]);
    assert_eq!(filing, vec![(1, 1)]);
}
