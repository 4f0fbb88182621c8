use starknet_event_query::error::QueryError;
use starknet_event_query::filter_seed::FilterSeed;

fn seed(from_block: u64, to_block: u64, with_name: Option<&str>) -> FilterSeed {
    FilterSeed { from_block, to_block, with_name: with_name.map(|s| s.to_string()) }
}

#[test]
fn decodes_single_block() {
    assert_eq!(FilterSeed::from_stem("100"), Ok(seed(100, 100, None)));
}

#[test]
fn decodes_block_range() {
    assert_eq!(FilterSeed::from_stem("100+5"), Ok(seed(100, 105, None)));
}

#[test]
fn decodes_named_single_block() {
    assert_eq!(FilterSeed::from_stem("100w3"), Ok(seed(100, 100, Some("3"))));
}

#[test]
fn decodes_named_block_range() {
    assert_eq!(FilterSeed::from_stem("100+5w3"), Ok(seed(100, 105, Some("3"))));
}

#[test]
fn decodes_empty_filter_name() {
    assert_eq!(FilterSeed::from_stem("100w"), Ok(seed(100, 100, Some(""))));
    assert_eq!(FilterSeed::from_stem("100+1w"), Ok(seed(100, 101, Some(""))));
}

#[test]
fn filter_name_is_all_after_first_w() {
    assert_eq!(FilterSeed::from_stem("7wow"), Ok(seed(7, 7, Some("ow"))));
    assert_eq!(FilterSeed::from_stem("7wa+b"), Ok(seed(7, 7, Some("a+b"))));
    assert_eq!(FilterSeed::from_stem("7+2w+w"), Ok(seed(7, 9, Some("+w"))));
    assert_eq!(FilterSeed::from_stem("7w\u{e9}t\u{e9}"), Ok(seed(7, 7, Some("\u{e9}t\u{e9}"))));
}

#[test]
fn decodes_leading_zeros_of_from_block() {
    assert_eq!(FilterSeed::from_stem("007"), Ok(seed(7, 7, None)));
    assert_eq!(FilterSeed::from_stem("0"), Ok(seed(0, 0, None)));
    assert_eq!(
        FilterSeed::from_stem("000000000000000000000000018446744073709551615"),
        Ok(seed(u64::MAX, u64::MAX, None))
    );
}

#[test]
fn decodes_largest_blocks() {
    assert_eq!(FilterSeed::from_stem("18446744073709551615"), Ok(seed(u64::MAX, u64::MAX, None)));
    assert_eq!(FilterSeed::from_stem("0+18446744073709551615"), Ok(seed(0, u64::MAX, None)));
    assert_eq!(
        FilterSeed::from_stem("18446744073709551614+1w9"),
        Ok(seed(u64::MAX - 1, u64::MAX, Some("9")))
    );
}

#[test]
fn rejects_overflow() {
    assert_eq!(FilterSeed::from_stem("18446744073709551616"), Err(QueryError::MalformedStem));
    assert_eq!(FilterSeed::from_stem("18446744073709551615+1"), Err(QueryError::MalformedStem));
    assert_eq!(FilterSeed::from_stem("1+18446744073709551615"), Err(QueryError::MalformedStem));
    assert_eq!(FilterSeed::from_stem("1+18446744073709551616"), Err(QueryError::MalformedStem));
    assert_eq!(
        FilterSeed::from_stem("99999999999999999999999999999999"),
        Err(QueryError::MalformedStem)
    );
}

#[test]
fn rejects_what_is_no_number() {
    for stem in ["", "w", "w3", "+", "+5", "100+", "100+w3", "abc", "10a", "1 0", "-1", "1.5", "١٠"] {
        assert_eq!(FilterSeed::from_stem(stem), Err(QueryError::MalformedStem), "{:?}", stem);
    }
}

#[test]
fn rejects_block_count_that_is_zero_or_has_leading_zero_or_sign() {
    for stem in ["100+0", "100+05", "100+00", "100++5", "100+-5", "100+0w3", "100+5+5"] {
        assert_eq!(FilterSeed::from_stem(stem), Err(QueryError::MalformedStem), "{:?}", stem);
    }
}

#[test]
fn parse_tail_splits_number_and_name() {
    assert_eq!(FilterSeed::parse_tail("5"), Ok((5, None)));
    assert_eq!(FilterSeed::parse_tail("5w3"), Ok((5, Some("3".to_string()))));
    assert_eq!(FilterSeed::parse_tail("5w"), Ok((5, Some(String::new()))));
    assert_eq!(FilterSeed::parse_tail("05wxw"), Ok((5, Some("xw".to_string()))));
    assert_eq!(FilterSeed::parse_tail("w3"), Err(QueryError::MalformedStem));
    assert_eq!(FilterSeed::parse_tail(""), Err(QueryError::MalformedStem));
    assert_eq!(FilterSeed::parse_tail("x"), Err(QueryError::MalformedStem));
    assert_eq!(FilterSeed::parse_tail("+5"), Err(QueryError::MalformedStem));
}

#[test]
fn encodes_stems() {
    assert_eq!(seed(100, 100, None).to_stem(), "100");
    assert_eq!(seed(100, 105, None).to_stem(), "100+5");
    assert_eq!(seed(100, 100, Some("3")).to_stem(), "100w3");
    assert_eq!(seed(100, 105, Some("3")).to_stem(), "100+5w3");
    assert_eq!(seed(0, u64::MAX, Some("")).to_stem(), "0+18446744073709551615w");
    assert_eq!(seed(0, 0, None).to_stem(), "0");
}

#[test]
fn decoding_inverts_encoding() {
    let blocks = [0u64, 1, 9, 10, 99, 100, 1024, 123456789, u64::MAX - 1, u64::MAX];
    let names = [None, Some(""), Some("1"), Some("12"), Some("w"), Some("a+b"), Some("+"), Some("x.y"), Some("\u{3a9}")];
    for from_block in blocks {
        for to_block in blocks {
            if to_block < from_block {
                continue;
            }
            for name in names {
                let seed = seed(from_block, to_block, name);
                let stem = seed.to_stem();
                assert_eq!(FilterSeed::from_stem(&stem), Ok(seed), "{:?}", stem);
            }
        }
    }
}

#[test]
fn names_the_filter_descriptor() {
    assert_eq!(seed(100, 100, None).format_filter_basename(), None);
    assert_eq!(seed(100, 105, None).format_filter_basename(), None);
    assert_eq!(seed(100, 100, Some("3")).format_filter_basename(), Some("100f3.json".to_string()));
    assert_eq!(seed(100, 105, Some("3")).format_filter_basename(), Some("100+5f3.json".to_string()));
    assert_eq!(seed(7, 8, Some("")).format_filter_basename(), Some("7+1f.json".to_string()));
}

#[test]
fn loads_seed_from_fixture_path() {
    assert_eq!(FilterSeed::load("ground/100+5w3.jsonl"), Ok(seed(100, 105, Some("3"))));
    assert_eq!(FilterSeed::load("100.jsonl"), Ok(seed(100, 100, None)));
    assert_eq!(FilterSeed::load("/a/b.c/7w1.jsonl"), Ok(seed(7, 7, Some("1"))));
    assert_eq!(FilterSeed::load("a/42"), Ok(seed(42, 42, None)));
    assert_eq!(FilterSeed::load("a/42.tar.gz"), Err(QueryError::MalformedStem));
    assert_eq!(FilterSeed::load("a/42wx.y.jsonl"), Ok(seed(42, 42, Some("x.y"))));
}

#[test]
fn load_rejects_paths_without_file() {
    for path in ["", "/", "//", ".", "./", "/.", "./.", "..", "../", "ground/..", "ground/../", "ground/.././"] {
        assert_eq!(FilterSeed::load(path), Err(QueryError::InvalidFixturePath), "{:?}", path);
    }
}

#[test]
fn load_passes_over_trailing_separators_and_dots() {
    assert_eq!(FilterSeed::load("ground/100.jsonl/"), Ok(seed(100, 100, None)));
    assert_eq!(FilterSeed::load("ground/100+5w3.jsonl//"), Ok(seed(100, 105, Some("3"))));
    assert_eq!(FilterSeed::load("ground/100.jsonl/."), Ok(seed(100, 100, None)));
    assert_eq!(FilterSeed::load("ground/100.jsonl/.//./"), Ok(seed(100, 100, None)));
    assert_eq!(FilterSeed::load("100/"), Ok(seed(100, 100, None)));
    assert_eq!(FilterSeed::load("ground/"), Err(QueryError::MalformedStem));
    assert_eq!(FilterSeed::load("7/ground/."), Err(QueryError::MalformedStem));
}

#[test]
fn load_rejects_malformed_stems() {
    assert_eq!(FilterSeed::load("ground/readme.jsonl"), Err(QueryError::MalformedStem));
    assert_eq!(FilterSeed::load("ground/.jsonl"), Err(QueryError::MalformedStem));
    assert_eq!(FilterSeed::load("ground/100+0.jsonl"), Err(QueryError::MalformedStem));
    assert_eq!(FilterSeed::load("ground/..."), Err(QueryError::MalformedStem));
}

#[test]
fn load_reads_the_stem_that_std_gives() {
    let paths = [
        "ground/100+5w3.jsonl", "100.jsonl", "/a/b.c/7w1.jsonl", "a/42", "x/.9", "x/12.",
        "x/1.2.3", "ground/100.jsonl/", "ground/100.jsonl//", "ground/100.jsonl/.",
        "ground/100.jsonl/./", "ground//100.jsonl", "ground/./100.jsonl", "./100.jsonl",
        "../100.jsonl", "/100", "100/", "ground/", "ground/.", "a/b/../7.jsonl", "7w.x", "7w.",
        ".7", "..7", "7..", "...", "a/...", "", "/", "//", ".", "./", "/.", "./.", "..", "../",
        "a/..", "a/../", "a/.././", "a/./..", " ", "7w\u{e9}.jsonl",
    ];
    for path in paths {
        let expected = match std::path::Path::new(path).file_stem() {
            Some(stem) => FilterSeed::from_stem(stem.to_str().unwrap()),
            None => Err(QueryError::InvalidFixturePath),
        };
        assert_eq!(FilterSeed::load(path), expected, "{:?}", path);
    }
}

#[test]
fn directory_and_extension_do_not_matter() {
    for stem in ["100", "100+5", "100w3", "100+5w3", "100+0", "x", "7wa+b"] {
        let expected = FilterSeed::from_stem(stem);
        for dir in ["", "/", "ground/", "/a/b.c/", "./", "../x/"] {
            for extension in ["", ".jsonl", ".json", ".x"] {
                for tail in ["", "/", "/.", "//./"] {
                    let path = format!("{}{}{}{}", dir, stem, extension, tail);
                    assert_eq!(FilterSeed::load(&path), expected, "{:?}", path);
                }
            }
        }
    }
}

#[test]
fn finds_the_descriptor_beside_the_fixture() {
    let named = seed(100, 105, Some("3"));
    assert_eq!(named.filter_path("ground/100+5w3.jsonl"), Some("ground/100+5f3.json".to_string()));
    assert_eq!(named.filter_path("100+5w3.jsonl"), Some("100+5f3.json".to_string()));
    assert_eq!(named.filter_path("/100+5w3.jsonl"), Some("/100+5f3.json".to_string()));
    assert_eq!(named.filter_path("a/b/c"), Some("a/b/100+5f3.json".to_string()));
    assert_eq!(seed(100, 105, None).filter_path("ground/100+5.jsonl"), None);
    assert_eq!(named.filter_path("ground/100+5w3.jsonl/"), Some("ground/100+5f3.json".to_string()));
    assert_eq!(named.filter_path("ground/100+5w3.jsonl/."), Some("ground/100+5f3.json".to_string()));
}

#[test]
fn descriptor_path_is_the_one_that_std_joins() {
    let named = seed(100, 105, Some("3"));
    let fixtures = [
        "ground/100+5w3.jsonl", "100+5w3.jsonl", "/a/b/c", "a/b/", "x/y/.", "/7", "//7", "a//b",
        "a/./b", "a/b//", "./7", "././7", "../7", "a/../7", "/a//./b/./", "a/.b", "a./b", "/./7",
        "///a///b///", ".a/b", "a/b/c/d.e/f.jsonl", "7/.", "7//",
    ];
    for fixture in fixtures {
        let beside = std::path::Path::new(fixture).parent().unwrap().join("100+5f3.json");
        assert_eq!(
            named.filter_path(fixture),
            Some(beside.to_str().unwrap().to_string()),
            "{:?}",
            fixture
        );
    }
}
