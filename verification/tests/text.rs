use session_kanban::checklist::parse_checklist;
use session_kanban::json::parse_json;
use session_kanban::json::Json;
use session_kanban::text::ascii_lower;
use session_kanban::text::contains_part;
use session_kanban::text::decimal;
use session_kanban::text::is_white;
use session_kanban::text::same;
use session_kanban::text::split;
use session_kanban::text::starts_with;
use session_kanban::text::trim;

#[test]
fn whitespace_is_that_of_unicode() {
    for n in 0..=0x10ffffu32 {
        if let Some(c) = char::from_u32(n) {
            assert_eq!(is_white(c), c.is_whitespace(), "{:x}", n);
        }
    }
}

#[test]
fn strings_as_std_has_them() {
    let texts = [
        "", " ", "a", " a b ", "\u{3000}x\u{a0}", "A,b,,C", "É é", "..", "a..b", ".a.", "aab", "ab",
        "localhost:8081", "\t\n", ",",
    ];
    for s in texts {
        assert_eq!(trim(s), s.trim());
        assert_eq!(ascii_lower(s), s.to_ascii_lowercase());
        assert_eq!(split(s, ','), s.split(',').map(|p| p.to_string()).collect::<Vec<String>>());
        for t in texts {
            assert_eq!(same(s, t), s == t);
            assert_eq!(starts_with(s, t), s.starts_with(t));
            assert_eq!(contains_part(s, t), s.contains(t));
        }
    }
    for n in 0..=u16::MAX {
        assert_eq!(decimal(n), n.to_string());
    }
}

#[test]
fn documents_are_read() {
    let doc = parse_json(r#" {"b":[1,true,null,"x"],"a":{"c":-0.5},"a2":""} "#).unwrap();
    assert!(doc.is_object());
    assert_eq!(doc.get("b").unwrap().as_array().unwrap().len(), 4);
    match &doc.get("b").unwrap().as_array().unwrap()[0] {
        Json::Number(bits) => assert_eq!(*bits, 1.0f64.to_bits()),
        other => panic!("{:?}", other),
    }
    assert!(matches!(doc.get("b").unwrap().as_array().unwrap()[1], Json::Bool(true)));
    assert!(matches!(doc.get("b").unwrap().as_array().unwrap()[2], Json::Null));
    assert_eq!(doc.get("b").unwrap().as_array().unwrap()[3].as_str(), Some("x"));
    match doc.get("a").unwrap().get("c").unwrap() {
        Json::Number(bits) => assert_eq!(*bits, (-0.5f64).to_bits()),
        other => panic!("{:?}", other),
    }
    assert_eq!(doc.get_str("a2"), Some(""));
    assert_eq!(doc.get_str("a"), None);
    assert_eq!(doc.get_str_or("zz", "d"), "d");
    assert!(doc.get("zz").is_none());
    // of two fields with one name the last counts
    let twice = parse_json(r#"{"a":"1","a":"2"}"#).unwrap();
    assert_eq!(twice.get_str("a"), Some("2"));
    for bad in ["", "{", "[1,]", "nul", "{'a':1}", "1 2", "\u{feff}1"] {
        assert!(parse_json(bad).is_none(), "{}", bad);
    }
    assert_eq!(parse_json("\"\\u00e9\\n\"").unwrap().as_str(), Some("é\n"));
}

struct Patterns {
    line: regex::Regex,
    done: regex::Regex,
    open: regex::Regex,
    paren: regex::Regex,
}

fn patterns() -> Patterns {
    Patterns {
        line: regex::Regex::new(
            r"^\s*[-*]?\s*(?P<marker>✅|✔️|☑️|✓|🔄|⏳|🚧|❌|✗|\[\s*[xX]\s*\]|\[\s*\])\s*(?P<rest>.+?)\s*$",
        )
        .unwrap(),
        done: regex::Regex::new(r"^\[\s*[xX]\s*\]$").unwrap(),
        open: regex::Regex::new(r"^\[\s*\]$").unwrap(),
        paren: regex::Regex::new(r"\s*\([^)]*\)\s*$").unwrap(),
    }
}

/// The cards of a text by the patterns of the grammar.
fn cards_by_pattern(p: &Patterns, text: &str) -> Vec<(String, String)> {
    let mut out = vec![];
    for raw in text.lines() {
        let caps = match p.line.captures(raw) {
            Some(caps) => caps,
            None => continue,
        };
        let marker = caps.name("marker").unwrap().as_str().trim();
        let rest = caps.name("rest").unwrap().as_str().trim().to_string();
        if rest.is_empty() {
            continue;
        }
        let status = if ["✅", "✔️", "☑️", "✓"].contains(&marker) || p.done.is_match(marker) {
            "completed"
        } else if ["🔄", "⏳", "🚧"].contains(&marker) {
            "in_progress"
        } else if ["❌", "✗"].contains(&marker) || p.open.is_match(marker) {
            "pending"
        } else {
            continue;
        };
        let mut items: Vec<String> = vec![rest.clone()];
        if status == "completed" {
            let stripped = p.paren.replace(&rest, "").to_string();
            if stripped.contains(',') && !stripped.contains('。') && !stripped.contains(':') {
                let parts: Vec<String> = stripped
                    .split(',')
                    .map(|part| part.trim().to_string())
                    .filter(|part| !part.is_empty())
                    .collect();
                if parts.iter().all(|part| part.chars().count() <= 40) {
                    items = parts;
                }
            }
        }
        for item in items {
            out.push((item, status.to_string()));
        }
    }
    out
}

fn cards(text: &str) -> Vec<(String, String)> {
    parse_checklist(text)
        .into_iter()
        .map(|t| {
            assert_eq!(t.content, t.active_form);
            assert_eq!(t.content, t.content.trim());
            assert!(text.split('\n').any(|line| line.contains(&t.content)));
            (t.content, t.status)
        })
        .collect()
}

#[test]
fn checklists_as_the_patterns_have_them() {
    let p = patterns();
    let indents = ["", " ", "\t\u{3000}", "x"];
    let bullets = ["", "-", "* ", "-  ", "--", "+ "];
    let markers = [
        "✅", "✔️", "✔", "☑️", "☑", "✓", "🔄", "⏳", "🚧", "❌", "✗", "[x]", "[ X\t]", "[]", "[  ]",
        "[xx]", "[x", "[", "", "✅✅", "✅\u{fe0f}",
    ];
    let forty = "y".repeat(40);
    let long = "z".repeat(41);
    let words: Vec<String> = vec![
        "".to_string(),
        " ".to_string(),
        " task".to_string(),
        "task ".to_string(),
        " a, b ,c (3/15)".to_string(),
        " a, b (x) (y)".to_string(),
        " a, (b".to_string(),
        " a, b)".to_string(),
        " a, b ((c)".to_string(),
        " (a, b)".to_string(),
        " ,".to_string(),
        " a,".to_string(),
        " a, b: c".to_string(),
        " a, b (c: d)".to_string(),
        " a, b。".to_string(),
        " a, b (。)".to_string(),
        format!(" {forty}, b"),
        format!(" {long}, b"),
        " a\r".to_string(),
        " a\u{b}b\u{85}".to_string(),
        " a, b ( )\r".to_string(),
        " ()".to_string(),
    ];
    let mut all = String::new();
    for indent in indents {
        for bullet in bullets {
            for marker in markers {
                for w in &words {
                    let line = format!("{indent}{bullet}{marker}{w}");
                    assert_eq!(cards(&line), cards_by_pattern(&p, &line), "{:?}", line);
                    all.push_str(&line);
                    all.push('\n');
                }
            }
        }
    }
    assert_eq!(cards(&all), cards_by_pattern(&p, &all));
    assert!(cards(&all).len() > 500);
}

#[test]
fn lines_speak_for_themselves() {
    let a = "- ✅ a, b\nplain\n- [ ] c";
    let b = "🔄 d\n\n✗ e";
    let mut both = cards(a);
    both.extend(cards(b));
    assert_eq!(cards(&format!("{a}\n{b}")), both);
    assert_eq!(both.len(), 5);
}
