use newtron::index::local::subtree_patterns;
use rusqlite::Connection;

fn remaining_after_removing(folder: &str, paths: &[&str]) -> Vec<String> {
    let conn = Connection::open_in_memory().unwrap();
    conn.execute_batch("CREATE TABLE files (full_path TEXT NOT NULL)").unwrap();
    for p in paths {
        conn.execute("INSERT INTO files (full_path) VALUES (?1)", [p]).unwrap();
    }
    let (under_backslash, under_slash) = subtree_patterns(folder);
    conn.execute(
        "DELETE FROM files WHERE full_path = ?1 OR full_path LIKE ?2 ESCAPE '\\' OR full_path LIKE ?3 ESCAPE '\\'",
        [folder, under_backslash.as_str(), under_slash.as_str()],
    )
    .unwrap();
    let mut stmt = conn.prepare("SELECT full_path FROM files ORDER BY full_path").unwrap();
    let rows = stmt.query_map([], |r| r.get::<_, String>(0)).unwrap();
    let left: Vec<String> = rows.map(|r| r.unwrap()).collect();
    left
}

#[test]
fn removing_a_folder_with_wildcard_characters_spares_its_siblings() {
    let left = remaining_after_removing(
        "C:\\a_b",
        &["C:\\a_b", "C:\\a_b\\x.txt", "C:\\a_b\\sub\\y.txt", "C:\\axb\\y.txt", "C:\\a_bc\\z.txt"],
    );
    assert_eq!(left, vec!["C:\\a_bc\\z.txt".to_string(), "C:\\axb\\y.txt".to_string()]);
}

#[test]
fn removing_a_slash_folder_drops_what_lies_under_it() {
    let left = remaining_after_removing("/d/x", &["/d/x/f.txt", "/d/x/sub/g.txt", "/d/xy/h.txt", "/d/x"]);
    assert_eq!(left, vec!["/d/xy/h.txt".to_string()]);
}

#[test]
fn removing_a_folder_with_a_percent_sign() {
    let left = remaining_after_removing("/d/50%", &["/d/50%/a", "/d/500/b", "/d/50x/c"]);
    assert_eq!(left, vec!["/d/500/b".to_string(), "/d/50x/c".to_string()]);
}
