use ledger_core::schema::{
    has_prefix, is_space_char, line_ranges, section_ranges, split_statements, trim_range,
};

const SEPARATOR: &str = "-- =====================================================";

fn chars(s: &str) -> Vec<char> {
    s.chars().collect()
}

fn split(script: &str) -> Vec<String> {
    split_statements(&chars(script)).iter().map(|t| t.iter().collect()).collect()
}

/// What the text falls into when std's own functions do the work.
fn expected(script: &str) -> Vec<String> {
    let mut all: Vec<String> = Vec::new();
    for section in script.split(SEPARATOR) {
        if section.trim().is_empty() {
            continue;
        }
        let mut current = String::new();
        let mut found: Vec<String> = Vec::new();
        for line in section.lines() {
            let t = line.trim();
            let opens = [
                "CREATE EXTENSION",
                "CREATE TYPE",
                "CREATE TABLE",
                "CREATE INDEX",
                "ALTER TABLE",
                "CREATE OR REPLACE FUNCTION",
            ]
            .iter()
            .any(|p| t.starts_with(p));
            if t.is_empty() && !current.trim().is_empty() {
                found.push(current.trim().to_string());
                current.clear();
            } else if t.starts_with("--") {
            } else if opens {
                if !current.trim().is_empty() {
                    found.push(current.trim().to_string());
                }
                current.clear();
                current.push_str(line);
                current.push('\n');
            } else {
                current.push_str(line);
                current.push('\n');
            }
        }
        if !current.trim().is_empty() {
            found.push(current.trim().to_string());
        }
        for t in found {
            if ["CREATE", "ALTER", "INSERT", "UPDATE", "DELETE"].iter().any(|p| t.starts_with(p)) {
                all.push(t);
            }
        }
    }
    all
}

#[test]
fn white_space_is_what_the_standard_says() {
    for u in 0..0x3100u32 {
        if let Some(c) = char::from_u32(u) {
            assert_eq!(is_space_char(c), c.is_whitespace(), "U+{:04X}", u);
        }
    }
    assert!(!is_space_char('\u{feff}'));
    assert!(!is_space_char('\u{10ffff}'));
}

#[test]
fn trimming_finds_the_solid_part() {
    let v = chars("xx  \t a b \n yy");
    assert_eq!(trim_range(&v, 2, 11), (6, 9));
    assert_eq!(trim_range(&v, 0, v.len()), (0, v.len()));
    assert_eq!(trim_range(&v, 2, 6), (6, 6));
    assert_eq!(trim_range(&v, 3, 3), (3, 3));
    let blank = chars(" \u{a0}\u{3000}\r\n");
    let (a, b) = trim_range(&blank, 0, blank.len());
    assert_eq!(a, b);
}

#[test]
fn prefixes_are_compared_character_by_character() {
    let v = chars("  CREATE TABLE t");
    assert!(has_prefix(&v, 2, v.len(), "CREATE"));
    assert!(has_prefix(&v, 2, v.len(), "CREATE TABLE"));
    assert!(has_prefix(&v, 2, v.len(), ""));
    assert!(!has_prefix(&v, 0, v.len(), "CREATE"));
    assert!(!has_prefix(&v, 2, 7, "CREATE"));
    assert!(has_prefix(&v, 2, 8, "CREATE"));
    assert!(!has_prefix(&v, 2, v.len(), "CREATE TYPE"));
}

#[test]
fn lines_end_at_line_feeds_and_drop_the_carriage_return() {
    for text in ["", "a", "a\n", "a\nb", "a\r\nb\r\n", "\n\n", "a\rb\r", "\r\n", "x\n\ny\r", "\r\r\n"] {
        let v = chars(text);
        let got: Vec<String> =
            line_ranges(&v, 0, v.len()).iter().map(|&(a, b)| v[a..b].iter().collect()).collect();
        let want: Vec<String> = text.lines().map(|l| l.to_string()).collect();
        assert_eq!(got, want, "{:?}", text);
    }
    let v = chars("ab\ncd\nef");
    assert_eq!(line_ranges(&v, 1, 7), vec![(1, 2), (3, 5), (6, 7)]);
}

#[test]
fn sections_part_at_every_separator() {
    for text in ["", "a", "--b--", "a--", "--", "----", "a--b--c", "-a-", "---", "a-"] {
        let v = chars(text);
        let got: Vec<String> =
            section_ranges(&v, "--").iter().map(|&(a, b)| v[a..b].iter().collect()).collect();
        let want: Vec<String> = text.split("--").map(|l| l.to_string()).collect();
        assert_eq!(got, want, "{:?}", text);
    }
    let v = chars("abc");
    assert_eq!(section_ranges(&v, ""), vec![(0, 3)]);
    assert_eq!(section_ranges(&v, "abcd"), vec![(0, 3)]);
    assert_eq!(section_ranges(&v, "abc"), vec![(0, 0), (3, 3)]);
}

#[test]
fn a_script_falls_into_its_statements() {
    let script = "\
-- =====================================================
-- Users
-- =====================================================
CREATE EXTENSION IF NOT EXISTS \"uuid-ossp\";
CREATE TYPE account_type AS ENUM ('asset', 'liability');

CREATE TABLE users (
    id UUID PRIMARY KEY,
    -- the login
    email TEXT NOT NULL
);
CREATE INDEX idx_users_email ON users (email);

-- =====================================================
INSERT INTO users (id, email)
VALUES ('1', 'a@b.c');

SELECT 1;

ALTER TABLE users ADD COLUMN name TEXT;
";
    let got = split(script);
    assert_eq!(
        got,
        vec![
            "CREATE EXTENSION IF NOT EXISTS \"uuid-ossp\";".to_string(),
            "CREATE TYPE account_type AS ENUM ('asset', 'liability');".to_string(),
            "CREATE TABLE users (\n    id UUID PRIMARY KEY,\n    email TEXT NOT NULL\n);".to_string(),
            "CREATE INDEX idx_users_email ON users (email);".to_string(),
            "INSERT INTO users (id, email)\nVALUES ('1', 'a@b.c');".to_string(),
            "ALTER TABLE users ADD COLUMN name TEXT;".to_string(),
        ]
    );
    assert_eq!(got, expected(script));
}

#[test]
fn the_splitter_agrees_with_the_standard_functions() {
    let scripts = [
        "",
        "\n\n",
        "CREATE TABLE a (x INT);",
        "  CREATE TABLE a (x INT);  \r\n\r\n  DROP TABLE a;\r\nDELETE FROM a;\r\n",
        "UPDATE a SET x = 1\nWHERE y = 2;\n\n\n\nDELETE FROM a;",
        "CREATE VIEW v AS SELECT 1;\nCREATE TABLE t (x INT);\nCREATE VIEW w AS SELECT 2;",
        "-- only a comment\n\n--another",
        "x\n-- =====================================================\nCREATE TABLE t ();\n-- =====================================================",
        "CREATE TABLE t (\n\n  x INT\n);",
        "\u{a0}CREATE TABLE t ();\u{3000}\n \t \nALTER TABLE t RENAME TO u;\r",
        "CREATE OR REPLACE FUNCTION f() RETURNS INT AS $$\nBEGIN\n  RETURN 1;\nEND;\n$$ LANGUAGE plpgsql;\n\nCREATE TRIGGER g;",
        "INSERT INTO a VALUES (1);\nINSERT INTO a VALUES (2);\n\nselect 1;\n\nCREATEX;",
        "-- =====================================================-- =====================================================",
        "a\r\n\r\nCREATE INDEX i ON t (x);-- =====================================================ALTER TABLE t;",
    ];
    for script in scripts {
        assert_eq!(split(script), expected(script), "{:?}", script);
    }
}
