use v_escape_derive::buffer::Buffer;
use v_escape_derive::ranges::{compact, encode, Group, FLAG};
use v_escape_derive::table::{classify_table, find_index, quotes};
use v_escape_derive::{generate, Generator, Pair};

fn pairs_of(bytes: &[u8]) -> Vec<Pair> {
    bytes.iter().map(|b| Pair::new(*b, b"x")).collect()
}

fn covered(groups: &[Group], b: u8) -> bool {
    groups.iter().any(|g| match *g {
        Group::Range(lo, hi) => lo <= b && b <= hi,
        Group::Singleton(v) => v == b,
    })
}

fn sample_sets() -> Vec<Vec<u8>> {
    vec![
        vec![0],
        vec![255],
        vec![0, 255],
        vec![0, 1],
        vec![0, 2, 4],
        vec![0, 3, 6, 9],
        vec![0, 1, 4, 6],
        vec![10, 20, 30, 40, 50, 60],
        vec![1, 2, 3, 9, 10, 11, 30, 31, 90, 200, 201, 202],
        vec![b'"', b'&', b'\'', b'<', b'>'],
        (0..=255).collect(),
        (0..=255).filter(|b| b % 2 == 0).collect(),
        (0..=255).filter(|b| b % 7 == 3 || b % 11 == 0).collect(),
    ]
}

#[test]
fn spec_scenario_single() {
    let p = pairs_of(&[0]);
    assert_eq!(Generator::new(&p, false, false, false).calculate_ranges(), vec![0, 128]);
}

#[test]
fn spec_scenario_two_runs_leading_singleton() {
    let p = pairs_of(&[0, 2, 3]);
    assert_eq!(Generator::new(&p, false, false, false).calculate_ranges(), vec![2, 3, 0]);
}

#[test]
fn spec_scenario_one_range_two_singletons() {
    let p = pairs_of(&[0, 1, 4, 6]);
    assert_eq!(
        Generator::new(&p, false, false, false).calculate_ranges(),
        vec![0, 1, 4, 6, 128]
    );
}

#[test]
fn groups_are_tagged_ranges_first() {
    let p = pairs_of(&[0, 2, 3]);
    assert_eq!(compact(&p), vec![Group::Range(2, 3), Group::Singleton(0)]);
    let p = pairs_of(&[0, 2, 5, 6]);
    assert_eq!(
        compact(&p),
        vec![Group::Range(5, 6), Group::Singleton(0), Group::Singleton(2)]
    );
}

#[test]
fn whole_byte_space_is_one_range() {
    let all: Vec<u8> = (0..=255).collect();
    let p = pairs_of(&all);
    assert_eq!(compact(&p), vec![Group::Range(0, 255)]);
    assert_eq!(Generator::new(&p, false, false, false).calculate_ranges(), vec![0, 255]);
}

#[test]
fn equal_gaps_prefer_the_earlier_breaks() {
    // gaps 3, 3, 3: the first two breaks are kept
    let p = pairs_of(&[0, 3, 6, 9]);
    assert_eq!(
        compact(&p),
        vec![Group::Range(6, 9), Group::Singleton(0), Group::Singleton(3)]
    );
    assert_eq!(
        Generator::new(&p, false, false, false).calculate_ranges(),
        vec![6, 9, 0, 3, 128]
    );
    // gaps 5, 2, 5, 2: the two gaps of 5 are kept
    let p = pairs_of(&[0, 5, 7, 12, 14]);
    assert_eq!(
        compact(&p),
        vec![Group::Range(5, 7), Group::Range(12, 14), Group::Singleton(0)]
    );
}

#[test]
fn budget_of_three_groups() {
    for set in sample_sets() {
        let g = compact(&pairs_of(&set));
        assert!(!g.is_empty() && g.len() <= 3, "{:?} -> {:?}", set, g);
    }
}

#[test]
fn every_escape_byte_is_covered() {
    for set in sample_sets() {
        let g = compact(&pairs_of(&set));
        for b in &set {
            assert!(covered(&g, *b), "{} not covered by {:?}", b, g);
        }
    }
    // the lossy case: 3 lies between two kept breaks and is not in the set
    let g = compact(&pairs_of(&[0, 1, 2, 4, 5, 40, 41, 90, 91]));
    assert_eq!(g, vec![Group::Range(0, 5), Group::Range(40, 41), Group::Range(90, 91)]);
    assert!(covered(&g, 3));
}

#[test]
fn flag_iff_no_range_or_two_singletons() {
    for set in sample_sets() {
        let p = pairs_of(&set);
        let g = compact(&p);
        let e = Generator::new(&p, false, false, false).calculate_ranges();
        let ranges = g.iter().filter(|x| matches!(x, Group::Range(..))).count();
        let singles = g.len() - ranges;
        let flagged = ranges == 0 || singles >= 2;
        assert_eq!(e.len(), 2 * ranges + singles + flagged as usize, "{:?}", set);
        if flagged {
            assert_eq!(*e.last().unwrap(), FLAG);
        }
    }
}

#[test]
fn encode_writes_groups_and_flag() {
    assert_eq!(encode(&[Group::Range(3, 9), Group::Singleton(20)]), vec![3, 9, 20]);
    assert_eq!(encode(&[Group::Singleton(1), Group::Singleton(7)]), vec![1, 7, 128]);
    assert_eq!(
        encode(&[Group::Range(1, 2), Group::Singleton(5), Group::Singleton(7)]),
        vec![1, 2, 5, 7, 128]
    );
    assert_eq!(encode(&[Group::Range(1, 2), Group::Range(4, 5)]), vec![1, 2, 4, 5]);
    assert_eq!(encode(&[]), vec![128]);
}

#[test]
fn table_matches_pairs() {
    let set = [b'"', b'&', b'\'', b'<', b'>'];
    let p = pairs_of(&set);
    let t = classify_table(&p);
    assert_eq!(t.len(), 256);
    for b in 0..=255u8 {
        match set.iter().position(|x| *x == b) {
            Some(i) => assert_eq!(t[b as usize], i),
            None => assert_eq!(t[b as usize], set.len()),
        }
    }
}

#[test]
fn table_of_full_set() {
    let all: Vec<u8> = (0..=255).collect();
    let t = classify_table(&pairs_of(&all));
    for b in 0..256usize {
        assert_eq!(t[b], b);
    }
}

#[test]
fn table_of_empty_set() {
    let t = classify_table(&[]);
    assert!(t.iter().all(|x| *x == 0));
}

#[test]
fn binary_search_finds_and_misses() {
    let p = pairs_of(&[2, 4, 8, 16, 32]);
    assert_eq!(find_index(&p, 2), 0);
    assert_eq!(find_index(&p, 16), 3);
    assert_eq!(find_index(&p, 32), 4);
    assert_eq!(find_index(&p, 0), 5);
    assert_eq!(find_index(&p, 9), 5);
    assert_eq!(find_index(&p, 255), 5);
}

#[test]
fn quotes_in_pair_order() {
    let p = vec![Pair::new(b'&', b"&amp;"), Pair::new(b'<', "&lt;\u{e9}".as_bytes())];
    assert_eq!(
        quotes(&p),
        Some(vec!["&amp;".to_string(), "&lt;\u{e9}".to_string()])
    );
}

#[test]
fn invalid_quote_is_refused() {
    let p = vec![Pair::new(b'&', b"&amp;"), Pair::new(b'<', &[0xff, 0x41])];
    assert_eq!(quotes(&p), None);
}

#[test]
fn buffer_indents_blocks() {
    let mut b = Buffer::new(0);
    b.writeln("mod a {");
    b.write("x");
    b.write("y");
    b.writeln("");
    b.writeln("}");
    b.writeln("z");
    assert_eq!(b.buf, "mod a {\n    xy\n}\nz\n");
    assert_eq!(b.indent, 0);
}

fn expected_tables(set: &[u8], quote_list: &str) -> String {
    let mut s = String::from("static V_ESCAPE_TABLE: [u8; 256] = [");
    for b in 0..=255u8 {
        let n = set.iter().position(|x| *x == b).unwrap_or(set.len());
        s.push_str(&format!("{}, ", n));
    }
    s.push_str("];\n");
    s.push_str(&format!(
        "static V_ESCAPE_QUOTES: [&str; {}] = {};\n",
        set.len(),
        quote_list
    ));
    s.push_str(&format!("const V_ESCAPE_QUOTES_LEN: usize = {};\n", set.len()));
    s
}

const SCALAR: &str = "mod scalar { use super :: * ; _v_escape_escape_scalar ! (V_ESCAPE_TABLE , V_ESCAPE_QUOTES , V_ESCAPE_QUOTES_LEN) ; }\n";

#[test]
fn generate_scalar_only() {
    let p = vec![Pair::new(b'&', b"&amp;"), Pair::new(b'<', b"&lt;")];
    let out = generate(&p, false, false, false);
    let mut want = expected_tables(&[b'&', b'<'], "[\n    \"&amp;\",\n    \"&lt;\",\n]");
    want.push_str(SCALAR);
    want.push_str("_v_escape_cfg_escape!(false, false, false);\n");
    assert_eq!(out, want);
}

#[test]
fn generate_equality_kernel() {
    let p = vec![Pair::new(b'&', b"&amp;")];
    let out = Generator::new(&p, true, false, false).build();
    let mut want = expected_tables(&[b'&'], "[\n    \"&amp;\",\n]");
    want.push_str(SCALAR);
    want.push_str("#[cfg(all(target_arch = \"x86_64\", not(v_escape_nosimd)))]\n");
    want.push_str("mod sse {\n    use super::*;\n");
    want.push_str("     _v_escape_escape_sse!((V_ESCAPE_TABLE, V_ESCAPE_QUOTES, V_ESCAPE_QUOTES_LEN) ");
    want.push_str("38, 0, 0, 0, 0, 0, 0, 0, 0, 0, 0, 0, 0, 0, 0, 0, );\n}\n");
    want.push_str("_v_escape_cfg_escape!(true, false, false);\n");
    assert_eq!(out, want);
}

#[test]
fn generate_range_kernels() {
    let p = vec![Pair::new(b'<', b"&lt;"), Pair::new(b'>', b"&gt;")];
    let out = Generator::new(&p, true, true, true).build();
    let mut want = expected_tables(&[b'<', b'>'], "[\n    \"&lt;\",\n    \"&gt;\",\n]");
    want.push_str(SCALAR);
    want.push_str("#[cfg(all(target_arch = \"x86_64\", not(v_escape_nosimd)))]\n");
    want.push_str("mod ranges {\n");
    for k in ["avx", "sse"] {
        want.push_str(&format!("    pub mod {} {{\n", k));
        want.push_str("        use super::super::*;\n");
        want.push_str(&format!(
            "        _v_escape_escape_ranges!({}2 (V_ESCAPE_TABLE, V_ESCAPE_QUOTES, V_ESCAPE_QUOTES_LEN) 60, 62, 128, );\n",
            k
        ));
        want.push_str("    }\n");
    }
    want.push_str("}\n");
    want.push_str("_v_escape_cfg_escape!(true, true, true);\n");
    assert_eq!(out, want);
}
