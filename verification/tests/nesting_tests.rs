use coldb::sql::{parse_sql, refusal_of};

// A small generator of nested SQL, driven by a fixed sequence of numbers.
struct Dice(u64);

impl Dice {
    fn roll(&mut self, sides: u64) -> u64 {
        self.0 = self.0.wrapping_mul(6364136223846793005).wrapping_add(1442695040888963407);
        (self.0 >> 33) % sides
    }
}

fn expr(dice: &mut Dice, depth: u32) -> String {
    if depth == 0 {
        return match dice.roll(3) {
            0 => "1".to_string(),
            1 => "a".to_string(),
            _ => "'x'".to_string(),
        };
    }
    let d = depth - 1;
    match dice.roll(16) {
        0 => format!("NOT {}", expr(dice, d)),
        1 => format!("- {}", expr(dice, d)),
        2 => format!("({})", expr(dice, d)),
        3 => format!("f(1, 2, {})", expr(dice, d)),
        4 => format!("f({}, 1, 2)", expr(dice, d)),
        5 => format!("(SELECT 1, {})", expr(dice, d)),
        6 => format!("(SELECT {}, 1 FROM t)", expr(dice, d)),
        7 => format!("CASE WHEN {} THEN 1 ELSE 2 END", expr(dice, d)),
        8 => format!("CASE WHEN 1 THEN {} END", expr(dice, d)),
        9 => format!("a IN (1, 2, {})", expr(dice, d)),
        10 => format!("EXISTS ({})", query(dice, d)),
        11 => format!("1 + {}", expr(dice, d)),
        12 => format!("{} + 1", expr(dice, d)),
        13 => format!("a[{}]", expr(dice, d)),
        14 => format!("CAST({} AS int)", expr(dice, d)),
        _ => format!("a = ({})", query(dice, d)),
    }
}

fn source(dice: &mut Dice, depth: u32) -> String {
    if depth == 0 {
        return "t".to_string();
    }
    let d = depth - 1;
    match dice.roll(5) {
        0 => format!("({})", source(dice, d)),
        1 => format!("({}) a", query(dice, d)),
        2 => format!("(a JOIN {} ON 1 = 1)", source(dice, d)),
        3 => format!("t, {}", source(dice, d)),
        _ => format!("(t, u, {})", source(dice, d)),
    }
}

fn query(dice: &mut Dice, depth: u32) -> String {
    if depth == 0 {
        return "SELECT 1".to_string();
    }
    let d = depth - 1;
    match dice.roll(7) {
        0 => format!("SELECT a, {} FROM t", expr(dice, d)),
        1 => format!("SELECT a, b FROM {}", source(dice, d)),
        2 => format!("SELECT a, b FROM t WHERE {}", expr(dice, d)),
        3 => format!("SELECT a, b UNION {}", query(dice, d)),
        4 => format!("{} UNION SELECT a, b", query(dice, d)),
        5 => format!("WITH c AS ({}) SELECT a, b FROM c", query(dice, d)),
        _ => format!("({})", query(dice, d)),
    }
}

fn statement(dice: &mut Dice, depth: u32) -> String {
    if depth == 0 {
        return query(dice, 0);
    }
    let d = depth - 1;
    match dice.roll(8) {
        0 => format!("EXPLAIN {}", statement(dice, d)),
        1 => format!("PREPARE p AS {}", statement(dice, d)),
        2 => format!("INSERT INTO t (a, b) VALUES (1, {}), (2, 3)", expr(dice, d)),
        3 => format!("INSERT INTO t (a, b) {}", query(dice, d)),
        4 => format!("CREATE TABLE t (a int, b {}int{})", "ARRAY<".repeat(d as usize), " >".repeat(d as usize)),
        5 => format!("CREATE TABLE t (a int DEFAULT {}, b int)", expr(dice, d)),
        6 => format!("SELECT 1; {}", statement(dice, d)),
        _ => query(dice, d),
    }
}

fn come_back(seed: u64, samples: u32, deepest: u64) -> (u32, u32) {
    let mut dice = Dice(seed);
    let mut handed_on = 0;
    let mut refused = 0;
    for _ in 0..samples {
        let depth = dice.roll(deepest) as u32;
        let sql = statement(&mut dice, depth);
        match refusal_of(&sql) {
            Some(said) => {
                refused += 1;
                assert_eq!(parse_sql(&sql), Err(said));
            }
            None => {
                handed_on += 1;
                let _ = parse_sql(&sql);
            }
        }
    }
    (handed_on, refused)
}

#[test]
fn shallow_texts_are_handed_on_and_come_back() {
    let (handed_on, refused) = come_back(1, 2_000, 8);
    assert!(handed_on > 1_500, "{handed_on} handed on, {refused} refused");
}

#[test]
fn texts_of_middling_depth_come_back() {
    let (handed_on, refused) = come_back(2, 2_000, 24);
    assert!(handed_on > 200 && refused > 200, "{handed_on} handed on, {refused} refused");
}

#[test]
fn deep_texts_come_back_or_are_refused() {
    let (handed_on, refused) = come_back(3, 1_000, 80);
    assert!(refused > 500, "{handed_on} handed on, {refused} refused");
}

#[test]
fn more_texts_of_middling_depth_come_back() {
    for seed in 10..20 {
        come_back(seed, 500, 40);
    }
}
