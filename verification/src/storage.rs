//! Persistence of crawled pages: one record per URL, appended to a CSV
//! file or inserted into a SQLite database.
//!
//! The writes themselves are done by the `csv` and `rusqlite` crates
//! behind trusted wrappers; what is verified is the dispatch and the
//! error classification.

use vstd::prelude::*;

verus! {

/// The available storage backends.
#[derive(Clone, Copy, Debug)]
pub enum StorageBackend {
    Csv,
    Sqlite,
}

/// A persistence failure, labelled with the backend it came from and
/// carrying that backend's own message.
pub enum StorageError {
    Csv(String),
    Sqlite(String),
}

impl StorageError {
    /// The backend's own description of the failure.
    pub fn message(self) -> (m: String)
        ensures
            self matches StorageError::Csv(s) ==> m == s,
            self matches StorageError::Sqlite(s) ==> m == s,
    {
        match self {
            StorageError::Csv(s) => s,
            StorageError::Sqlite(s) => s,
        }
    }
}

/// Relies on `csv::ReaderBuilder`, `Reader::into_records` and
/// `csv::Writer::from_path`, `write_record`, `flush`: appends one record
/// to `output.csv` by reading the rows already there (none when the file
/// is missing) and writing them back followed by the new record — the csv
/// crate itself can only open a file afresh, and the sink must keep every
/// record. The outcome depends on the machine's file system, so nothing
/// is promised of it beyond the error message.
#[verifier::external_body]
fn save_to_csv(url: &str, html_content: &str) -> (r: Result<(), String>) {
    let mut rows: Vec<csv::StringRecord> = Vec::new();
    if let Ok(reader) = csv::ReaderBuilder::new().has_headers(false).from_path("output.csv") {
        for row in reader.into_records() {
            rows.push(row.map_err(|e| e.to_string())?);
        }
    }
    let mut writer = csv::Writer::from_path("output.csv").map_err(|e| e.to_string())?;
    for row in &rows {
        writer.write_record(row).map_err(|e| e.to_string())?;
    }
    writer.write_record(&[url, html_content]).map_err(|e| e.to_string())?;
    writer.flush().map_err(|e| e.to_string())
}

/// Relies on `rusqlite::Connection::open` and `Connection::execute`:
/// ensures the `crawled_data` table of `output.db` exists and inserts the
/// record, ignoring a duplicate URL. The outcome depends on the machine's
/// file system, so nothing is promised of it beyond the error message.
#[verifier::external_body]
fn save_to_sqlite(url: &str, html_content: &str) -> (r: Result<(), String>) {
    let conn = rusqlite::Connection::open("output.db").map_err(|e| e.to_string())?;
    conn.execute(
        "CREATE TABLE IF NOT EXISTS crawled_data (
            id INTEGER PRIMARY KEY,
            url TEXT UNIQUE,
            html_content TEXT
        )",
        [],
    ).map_err(|e| e.to_string())?;
    conn.execute(
        "INSERT OR IGNORE INTO crawled_data (url, html_content) VALUES (?1, ?2)",
        [url, html_content],
    ).map_err(|e| e.to_string())?;
    Ok(())
}

/// Chooses and drives one storage backend.
pub struct StorageManager {
    backend: StorageBackend,
}

impl StorageManager {
    /// The backend this manager writes through.
    pub closed spec fn spec_backend(self) -> StorageBackend {
        self.backend
    }

    /// Creates a manager for the given backend.
    pub fn new(backend: StorageBackend) -> (m: StorageManager)
        ensures
            m.spec_backend() == backend,
    {
        StorageManager { backend }
    }

    /// Saves one record through the selected backend. A failure is
    /// reported as that backend's error, never silently dropped.
    pub fn save(&self, url: &str, html_content: &str) -> (r: Result<(), StorageError>)
        ensures
            self.spec_backend() is Csv ==> (r matches Err(e) ==> e is Csv),
            self.spec_backend() is Sqlite ==> (r matches Err(e) ==> e is Sqlite),
    {
        match self.backend {
            StorageBackend::Csv => {
                match save_to_csv(url, html_content) {
                    Ok(()) => Ok(()),
                    Err(m) => Err(StorageError::Csv(m)),
                }
            },
            StorageBackend::Sqlite => {
                match save_to_sqlite(url, html_content) {
                    Ok(()) => Ok(()),
                    Err(m) => Err(StorageError::Sqlite(m)),
                }
            },
        }
    }
}

} // verus!
