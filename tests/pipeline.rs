use ngu_hanh::phone::PhoneNumber;
use ngu_hanh::text::{extract_digits, parse_digit_list};
use ngu_hanh::{
    analyze, digit_to_element, evaluate, get_element_roles, quick_check_single_number,
    rank_results, AnalysisMode, AnalyzeConfig, AnalyzeResult, CheckResult, CompatFailure,
    Element, Rejection,
};

fn phone(s: &str) -> PhoneNumber {
    let digits: Vec<u8> = s.bytes().map(|b| b - b'0').collect();
    PhoneNumber::from_digits(&digits).unwrap()
}

fn counts(t: &[u8; 10]) -> [usize; 5] {
    let mut c = [0usize; 5];
    for &d in t.iter() {
        c[digit_to_element(d).index()] += 1;
    }
    c
}

fn invalid(reason: &str) -> CheckResult {
    CheckResult::Invalid { reason: reason.to_string() }
}

#[test]
fn classify_every_digit() {
    let expected = [
        Element::Tho,
        Element::Thuy,
        Element::Tho,
        Element::Moc,
        Element::Moc,
        Element::Tho,
        Element::Kim,
        Element::Kim,
        Element::Tho,
        Element::Hoa,
    ];
    for d in 0u8..10 {
        assert_eq!(digit_to_element(d), expected[d as usize]);
    }
}

#[test]
fn roles_cover_all_elements() {
    let all = [Element::Thuy, Element::Tho, Element::Moc, Element::Kim, Element::Hoa];
    for &menh in all.iter() {
        let (a, b, c, d, e) = get_element_roles(menh);
        assert_eq!(b, menh);
        let mut seen = [false; 5];
        for x in [a, b, c, d, e] {
            assert!(!seen[x.index()]);
            seen[x.index()] = true;
        }
        assert!(seen.iter().all(|&s| s));
    }
    assert_eq!(
        get_element_roles(Element::Kim),
        (Element::Tho, Element::Kim, Element::Moc, Element::Hoa, Element::Thuy)
    );
}

#[test]
fn transform_twice_is_transform_once() {
    let p = phone("1000500900");
    let once = p.get_transformed_digits();
    assert_eq!(once, [1, 5, 5, 5, 5, 5, 5, 9, 5, 5]);
    let twice = PhoneNumber::from_digits(&once).unwrap().get_transformed_digits();
    assert_eq!(twice, once);
}

#[test]
fn accepted_numbers_respect_any_max() {
    let mut cfg = AnalyzeConfig::default();
    cfg.filter_tong_max = 10;
    cfg.filter_any_max = 4;
    let text = "0123456789\n1128634679\n1234766891\n5555512345\n2588801369\n1122336699";
    let out = analyze(text, &cfg);
    assert!(!out.is_empty());
    for r in out.iter() {
        let t = phone(&r.number).get_transformed_digits();
        assert!(counts(&t).iter().all(|&c| c <= cfg.filter_any_max));
    }
    // 0123456789 has four Earth digits; with a bound of 3 it drops out.
    cfg.filter_any_max = 3;
    let out = analyze(text, &cfg);
    assert!(out.iter().all(|r| r.number != "0123456789"));
}

#[test]
fn ranking_is_descending_and_stable() {
    let input = vec![
        AnalyzeResult { number: "a".to_string(), score_tenths: 10 },
        AnalyzeResult { number: "b".to_string(), score_tenths: 30 },
        AnalyzeResult { number: "c".to_string(), score_tenths: 10 },
        AnalyzeResult { number: "d".to_string(), score_tenths: 30 },
        AnalyzeResult { number: "e".to_string(), score_tenths: -5 },
        AnalyzeResult { number: "f".to_string(), score_tenths: 20 },
    ];
    let out = rank_results(input);
    let names: Vec<&str> = out.iter().map(|r| r.number.as_str()).collect();
    assert_eq!(names, vec!["b", "d", "f", "a", "c", "e"]);
}

#[test]
fn batch_ranks_accepted_lines() {
    let cfg = AnalyzeConfig::default();
    let text = "1234766891 first\n0123456789\n112-863-4679\nnot a number\n1128634679\r\n";
    let out = analyze(text, &cfg);
    assert_eq!(
        out,
        vec![
            AnalyzeResult { number: "1128634679".to_string(), score_tenths: 46 },
            AnalyzeResult { number: "1128634679".to_string(), score_tenths: 46 },
            AnalyzeResult { number: "1234766891".to_string(), score_tenths: 42 },
        ]
    );
}

#[test]
fn single_and_batch_agree() {
    let mut cfg = AnalyzeConfig::default();
    cfg.toggle_suffix_filter = true;
    cfg.suffix_value = "9".to_string();
    for line in ["1234766891", "1128634679", "0123456789", "1111111111", "12345"] {
        let single = quick_check_single_number(line, &cfg);
        let batch = analyze(line, &cfg);
        match single {
            CheckResult::Valid { score_tenths } => {
                assert_eq!(batch.len(), 1);
                assert_eq!(batch[0].score_tenths, score_tenths);
            }
            CheckResult::Invalid { .. } => assert!(batch.is_empty()),
        }
    }
}

#[test]
fn all_water_number_is_rejected() {
    let mut cfg = AnalyzeConfig::default();
    cfg.user_menh = Element::Thuy;
    let p = phone("1111111111");
    assert_eq!(p.get_transformed_digits(), [1; 10]);
    assert_eq!(counts(&p.get_transformed_digits()), [10, 0, 0, 0, 0]);
    // No even digit: the static balance rejects it first.
    assert_eq!(evaluate("1111111111", &cfg), Err(Rejection::StaticBalance));
    cfg.toggle_static_balance = false;
    assert_eq!(
        evaluate("1111111111", &cfg),
        Err(Rejection::Compat(CompatFailure::Incomplete))
    );
    assert_eq!(quick_check_single_number("1111111111", &cfg), invalid("Không đủ 5 hành."));
}

#[test]
fn scores_of_zero_to_nine() {
    let cfg = AnalyzeConfig::default();
    let p = phone("0123456789");
    assert!(p.has_static_balance());
    let t = p.get_transformed_digits();
    assert_eq!(t, [5, 1, 2, 3, 4, 5, 6, 7, 8, 9]);
    assert_eq!(counts(&t), [1, 4, 2, 2, 1]);
    assert_eq!(p.calculate_adjacent_score(&t), 1);
    assert_eq!(p.calculate_compatibility_score(&t, &cfg), 14);
    // Generating plus same elements: 4 + 2 > 5.
    assert!(!p.passes_compatibility_filters(&t, &cfg));
    assert_eq!(
        quick_check_single_number("0123456789", &cfg),
        invalid("Tổng (Sinh + Cùng) quá lớn.")
    );
    let mut wide = AnalyzeConfig::default();
    wide.filter_tong_max = 6;
    // 0.4 * 1 + 0.6 * 14 = 8.8
    assert_eq!(
        quick_check_single_number("0123456789", &wide),
        CheckResult::Valid { score_tenths: 88 }
    );
}

#[test]
fn absolute_balance_ignores_menh() {
    let all = [Element::Thuy, Element::Tho, Element::Moc, Element::Kim, Element::Hoa];
    for &menh in all.iter() {
        let mut cfg = AnalyzeConfig::default();
        cfg.mode = AnalysisMode::AbsoluteBalance;
        cfg.user_menh = menh;
        assert_eq!(
            quick_check_single_number("1122336699", &cfg),
            CheckResult::Valid { score_tenths: -40 }
        );
        assert_eq!(
            quick_check_single_number("0123456789", &cfg),
            invalid("Không đạt Cân bằng tuyệt đối (2 số mỗi hành).")
        );
    }
}

#[test]
fn blacklisted_digit_rejects() {
    let mut cfg = AnalyzeConfig::default();
    assert_eq!(
        quick_check_single_number("1128634679", &cfg),
        CheckResult::Valid { score_tenths: 46 }
    );
    cfg.toggle_blacklist_filter = true;
    cfg.blacklist_digits = "3,7".to_string();
    assert_eq!(evaluate("1128634679", &cfg), Err(Rejection::Blacklist));
    assert_eq!(
        quick_check_single_number("1128634679", &cfg),
        invalid("Chứa số bị cấm (3,7)")
    );
    cfg.blacklist_digits = "x, 10".to_string();
    assert!(evaluate("1128634679", &cfg).is_ok());
}

#[test]
fn suffix_needs_every_listed_digit() {
    let mut cfg = AnalyzeConfig::default();
    cfg.toggle_suffix_filter = true;
    cfg.suffix_value = "8,9".to_string();
    assert_eq!(
        quick_check_single_number("1234766891", &cfg),
        CheckResult::Valid { score_tenths: 42 }
    );
    assert_eq!(evaluate("1234766811", &cfg), Err(Rejection::Suffix));
    assert_eq!(
        quick_check_single_number("1234766811", &cfg),
        invalid("Hậu tố không chứa đủ các số yêu cầu (8,9)")
    );
    cfg.suffix_value = "9, 9 ,8,8".to_string();
    assert!(evaluate("1234766891", &cfg).is_ok());
    cfg.suffix_value = "10".to_string();
    assert_eq!(evaluate("1234766891", &cfg), Err(Rejection::Suffix));
}

#[test]
fn prefix_filter() {
    let mut cfg = AnalyzeConfig::default();
    cfg.toggle_prefix_filter = true;
    cfg.prefix_value = "112".to_string();
    assert!(evaluate("1128634679", &cfg).is_ok());
    cfg.prefix_value = "09".to_string();
    assert_eq!(evaluate("1128634679", &cfg), Err(Rejection::Prefix));
    assert_eq!(
        quick_check_single_number("1128634679", &cfg),
        invalid("Không khớp Prefix '09'")
    );
    cfg.prefix_value = String::new();
    assert!(evaluate("1128634679", &cfg).is_ok());
}

#[test]
fn wrong_length_is_rejected() {
    let cfg = AnalyzeConfig::default();
    assert_eq!(evaluate("12345", &cfg), Err(Rejection::WrongLength));
    assert_eq!(evaluate("", &cfg), Err(Rejection::WrongLength));
    assert_eq!(evaluate("11286 34679", &cfg), Err(Rejection::WrongLength));
    assert_eq!(
        quick_check_single_number("112863467912", &cfg),
        invalid("Số phải có 10 chữ số.")
    );
    assert!(analyze("12345\n\n", &cfg).is_empty());
}

#[test]
fn compatibility_checks_in_order() {
    let cfg = AnalyzeConfig::default();
    // Fire (9) overcomes Metal: two of them exceed the limit of one.
    assert_eq!(
        evaluate("1128634699", &cfg),
        Err(Rejection::Compat(CompatFailure::TooManyKhac))
    );
    let mut strict = AnalyzeConfig::default();
    strict.filter_any_max = 2;
    assert_eq!(
        quick_check_single_number("1128634679", &strict),
        invalid("Một hành xuất hiện quá 2 lần.")
    );
    let mut few = AnalyzeConfig::default();
    few.filter_cung_min = 4;
    assert_eq!(
        evaluate("1128634679", &few),
        Err(Rejection::Compat(CompatFailure::TooFewCung))
    );
    few.filter_sinh_min = 3;
    assert_eq!(
        evaluate("1128634679", &few),
        Err(Rejection::Compat(CompatFailure::TooFewSinh))
    );
    let mut bi = AnalyzeConfig::default();
    bi.filter_bi_khac_max = 1;
    assert_eq!(
        evaluate("1128634679", &bi),
        Err(Rejection::Compat(CompatFailure::TooManyBiKhac))
    );
}

#[test]
fn digits_come_from_the_first_token() {
    assert_eq!(extract_digits("  098-765.4321 tail 55"), vec![0, 9, 8, 7, 6, 5, 4, 3, 2, 1]);
    assert_eq!(extract_digits("\u{3000}12a3\t45"), vec![1, 2, 3]);
    assert_eq!(extract_digits("   "), Vec::<u8>::new());
}

#[test]
fn digit_lists_drop_unreadable_entries() {
    assert_eq!(parse_digit_list(" 8 , +9,x,,10,-1,256,007"), vec![8, 9, 10, 7]);
    assert_eq!(parse_digit_list(""), Vec::<u8>::new());
    assert_eq!(parse_digit_list("+"), Vec::<u8>::new());
}

#[test]
fn default_config_values() {
    let cfg = AnalyzeConfig::default();
    assert_eq!(cfg.mode, AnalysisMode::Compatibility);
    assert_eq!(cfg.user_menh, Element::Kim);
    assert_eq!(Element::default(), Element::Kim);
    assert_eq!(
        (cfg.score_sinh, cfg.score_cung, cfg.score_bi_khac, cfg.score_sinh_xuat, cfg.score_khac),
        (3, 2, 1, -1, -3)
    );
    assert_eq!(
        (
            cfg.filter_khac_max,
            cfg.filter_bi_khac_max,
            cfg.filter_sinh_min,
            cfg.filter_cung_min,
            cfg.filter_tong_max,
            cfg.filter_any_max
        ),
        (1, 2, 2, 2, 5, 4)
    );
    assert!(cfg.toggle_static_balance && cfg.toggle_completeness);
    assert!(!cfg.toggle_prefix_filter && !cfg.toggle_suffix_filter && !cfg.toggle_blacklist_filter);
}
