//! The per-number pipeline shared by the batch and the single-number entry
//! points, and the ranking of accepted numbers.
use vstd::prelude::*;

use crate::config::{AnalysisMode, AnalyzeConfig};
use crate::phone::{
    absolute_balance, adjacency, compat_verdict, compatibility, count_of, element_at, static_balance, transform,
    CompatFailure, PhoneNumber,
};
use crate::element::Element;
use crate::ranking::{first_below, lemma_rank_ordered_and_stable, rank};
use crate::text::{
    chars_of, digit_char, digit_list, digit_str, digit_text, digits_start_with, digits_to_string, extract_digits, line_digits,
    parse_digit_list, text_starts_with,
};

verus! {

/// Why a number was rejected: the first stage or check that failed.
#[derive(Debug, Clone, Copy, PartialEq, Eq, Structural)]
pub enum Rejection {
    /// The first token of the line does not hold exactly ten digits.
    WrongLength,
    /// The number does not start with the configured prefix.
    Prefix,
    /// The last three digits lack a required digit.
    Suffix,
    /// The number holds a forbidden digit.
    Blacklist,
    /// The parity / digit-sum check failed.
    StaticBalance,
    /// A check of the compatibility filter failed.
    Compat(CompatFailure),
    /// Not every element occurs exactly twice.
    NotAbsoluteBalance,
}

/// A number that passed every filter, with its score in tenths.
#[derive(Debug, Clone, PartialEq)]
pub struct AnalyzeResult {
    pub number: String,
    pub score_tenths: i64,
}

/// The verdict on a single number.
#[derive(Debug, Clone, PartialEq)]
pub enum CheckResult {
    Valid { score_tenths: i64 },
    Invalid { reason: String },
}

/// The last three digits contain every required digit.
pub open spec fn suffix_holds(d: Seq<u8>, required: Seq<u8>) -> bool {
    forall|k: int| 0 <= k < required.len() ==> d.subrange(7, 10).contains(#[trigger] required[k])
}

/// Some digit of the number is forbidden.
pub open spec fn has_forbidden(d: Seq<u8>, forbidden: Seq<u8>) -> bool {
    exists|j: int| 0 <= j < d.len() && forbidden.contains(#[trigger] d[j])
}

/// The final score in tenths: `4 * adjacency + 6 * compatibility` in the
/// compatibility mode, `10 * adjacency` in the absolute-balance mode.
pub open spec fn score_tenths(t: Seq<u8>, cfg: AnalyzeConfig) -> int {
    match cfg.mode {
        AnalysisMode::Compatibility => 4 * adjacency(t) + 6 * compatibility(t, cfg),
        AnalysisMode::AbsoluteBalance => 10 * adjacency(t),
    }
}

/// The custom filters and the static balance on the original digits `d`,
/// in order; the first that fails decides.
pub open spec fn shared_verdict(d: Seq<u8>, cfg: AnalyzeConfig) -> Result<(), Rejection> {
    if d.len() != 10 {
        Err(Rejection::WrongLength)
    } else if cfg.toggle_prefix_filter && cfg.prefix_value@.len() > 0 && !text_starts_with(
        d,
        cfg.prefix_value@,
    ) {
        Err(Rejection::Prefix)
    } else if cfg.toggle_suffix_filter && cfg.suffix_value@.len() > 0 && !suffix_holds(
        d,
        digit_list(cfg.suffix_value@),
    ) {
        Err(Rejection::Suffix)
    } else if cfg.toggle_blacklist_filter && cfg.blacklist_digits@.len() > 0 && has_forbidden(
        d,
        digit_list(cfg.blacklist_digits@),
    ) {
        Err(Rejection::Blacklist)
    } else if cfg.toggle_static_balance && !static_balance(d) {
        Err(Rejection::StaticBalance)
    } else {
        Ok(())
    }
}

/// The verdict of the whole pipeline on a line: its score in tenths, or the
/// first stage that rejected it.
pub open spec fn verdict(line: Seq<char>, cfg: AnalyzeConfig) -> Result<int, Rejection> {
    let d = line_digits(line);
    let t = transform(d);
    match shared_verdict(d, cfg) {
        Err(e) => Err(e),
        Ok(_) => match cfg.mode {
            AnalysisMode::Compatibility => match compat_verdict(t, cfg) {
                Err(f) => Err(Rejection::Compat(f)),
                Ok(_) => Ok(score_tenths(t, cfg)),
            },
            AnalysisMode::AbsoluteBalance => if absolute_balance(t) {
                Ok(score_tenths(t, cfg))
            } else {
                Err(Rejection::NotAbsoluteBalance)
            },
        },
    }
}

/// Whether the digit `x` is in `v`.
fn holds_digit(v: &Vec<u8>, x: u8) -> (r: bool)
    ensures
        r == v@.contains(x),
{
    let mut i: usize = 0;
    while i < v.len()
        invariant
            0 <= i <= v@.len(),
            forall|k: int| 0 <= k < i ==> v@[k] != x,
        decreases v@.len() - i,
    {
        if v[i] == x {
            return true;
        }
        i = i + 1;
    }
    false
}

/// Whether the last three digits contain every digit of `required`.
fn suffix_filter(d: &[u8; 10], required: &Vec<u8>) -> (r: bool)
    ensures
        r == suffix_holds(d@, required@),
{
    let mut k: usize = 0;
    while k < required.len()
        invariant
            0 <= k <= required@.len(),
            forall|j: int| 0 <= j < k ==> d@.subrange(7, 10).contains(#[trigger] required@[j]),
        decreases required@.len() - k,
    {
        let x = required[k];
        if !(d[7] == x || d[8] == x || d[9] == x) {
            assert(!d@.subrange(7, 10).contains(x)) by {
                if d@.subrange(7, 10).contains(x) {
                    let j = choose|j: int| 0 <= j < 3 && d@.subrange(7, 10)[j] == x;
                    assert(d@[7 + j] == x);
                }
            }
            return false;
        }
        assert(d@.subrange(7, 10)[(if d[7] == x { 0int } else if d[8] == x { 1 } else { 2 })]
            == x);
        k = k + 1;
    }
    true
}

/// Whether some digit of the number is in `forbidden`.
fn blacklist_hit(d: &[u8; 10], forbidden: &Vec<u8>) -> (r: bool)
    ensures
        r == has_forbidden(d@, forbidden@),
{
    let mut j: usize = 0;
    while j < 10
        invariant
            0 <= j <= 10,
            forall|i: int| 0 <= i < j ==> !forbidden@.contains(#[trigger] d@[i]),
        decreases 10 - j,
    {
        if holds_digit(forbidden, d[j]) {
            return true;
        }
        j = j + 1;
    }
    false
}

/// Runs the pipeline on one line: digit extraction, the custom filters
/// (prefix, suffix, blacklist), the static balance, then the filter of the
/// configured mode and the score.
pub fn evaluate(line: &str, config: &AnalyzeConfig) -> (r: Result<AnalyzeResult, Rejection>)
    ensures
        match verdict(line@, *config) {
            Ok(score) => r matches Ok(res) && res.score_tenths == score && res.number@
                == digit_text(line_digits(line@)),
            Err(e) => r == Err::<AnalyzeResult, Rejection>(e),
        },
{
    let digits = extract_digits(line);
    if digits.len() != 10 {
        return Err(Rejection::WrongLength);
    }
    let phone = match PhoneNumber::from_digits(digits.as_slice()) {
        Some(p) => p,
        None => return Err(Rejection::WrongLength),
    };
    let d = &phone.original_digits;
    if config.toggle_prefix_filter && config.prefix_value.unicode_len() > 0 {
        if !digits_start_with(d, config.prefix_value.as_str()) {
            return Err(Rejection::Prefix);
        }
    }
    if config.toggle_suffix_filter && config.suffix_value.unicode_len() > 0 {
        let required = parse_digit_list(config.suffix_value.as_str());
        if !suffix_filter(d, &required) {
            return Err(Rejection::Suffix);
        }
    }
    if config.toggle_blacklist_filter && config.blacklist_digits.unicode_len() > 0 {
        let forbidden = parse_digit_list(config.blacklist_digits.as_str());
        if blacklist_hit(d, &forbidden) {
            return Err(Rejection::Blacklist);
        }
    }
    if config.toggle_static_balance && !phone.has_static_balance() {
        return Err(Rejection::StaticBalance);
    }
    let t_digits = phone.get_transformed_digits();
    let adj = phone.calculate_adjacent_score(&t_digits) as i64;
    let score = match config.mode {
        AnalysisMode::Compatibility => {
            match phone.compatibility_verdict(&t_digits, config) {
                Err(f) => return Err(Rejection::Compat(f)),
                Ok(_) => {},
            }
            let comp = phone.calculate_compatibility_score(&t_digits, config);
            4 * adj + 6 * comp
        },
        AnalysisMode::AbsoluteBalance => {
            if !phone.has_absolute_balance(&t_digits) {
                return Err(Rejection::NotAbsoluteBalance);
            }
            10 * adj
        },
    };
    Ok(AnalyzeResult { number: digits_to_string(d), score_tenths: score })
}

/// The decimal text of a natural number.
pub open spec fn decimal_text(n: nat) -> Seq<char>
    decreases n,
{
    if n < 10 {
        seq![digit_char(n as u8)]
    } else {
        decimal_text(n / 10).push(digit_char((n % 10) as u8))
    }
}

/// The decimal text of `n`.
pub fn decimal_string(n: usize) -> (r: String)
    ensures
        r@ == decimal_text(n as nat),
    decreases n,
{
    if n < 10 {
        String::from_str(digit_str(n as u8))
    } else {
        let mut s = decimal_string(n / 10);
        s.append(digit_str((n % 10) as u8));
        s
    }
}

/// The text that explains a rejection to the user.
pub open spec fn reason_text(e: Rejection, cfg: AnalyzeConfig) -> Seq<char> {
    match e {
        Rejection::WrongLength => "Số phải có 10 chữ số."@,
        Rejection::Prefix => "Không khớp Prefix '"@ + cfg.prefix_value@ + "'"@,
        Rejection::Suffix => "Hậu tố không chứa đủ các số yêu cầu ("@ + cfg.suffix_value@ + ")"@,
        Rejection::Blacklist => "Chứa số bị cấm ("@ + cfg.blacklist_digits@ + ")"@,
        Rejection::StaticBalance => "Không qua bộ lọc Chẵn/Lẻ & Tổng 8."@,
        Rejection::Compat(CompatFailure::Incomplete) => "Không đủ 5 hành."@,
        Rejection::Compat(CompatFailure::Dominance) => "Một hành xuất hiện quá "@ + decimal_text(
            cfg.filter_any_max as nat,
        ) + " lần."@,
        Rejection::Compat(CompatFailure::TooManyKhac) => "Vượt quá số lượng Hành Khắc Mệnh."@,
        Rejection::Compat(CompatFailure::TooManyBiKhac) => "Vượt quá số lượng Hành Bị Khắc."@,
        Rejection::Compat(CompatFailure::TooFewSinh) => "Không đủ số lượng Hành Sinh Mệnh."@,
        Rejection::Compat(CompatFailure::TooFewCung) => "Không đủ số lượng Hành Cùng Mệnh."@,
        Rejection::Compat(CompatFailure::TooManySinhCung) => "Tổng (Sinh + Cùng) quá lớn."@,
        Rejection::NotAbsoluteBalance => "Không đạt Cân bằng tuyệt đối (2 số mỗi hành)."@,
    }
}

/// The text that explains a rejection to the user.
pub fn rejection_text(e: Rejection, config: &AnalyzeConfig) -> (r: String)
    ensures
        r@ == reason_text(e, *config),
{
    match e {
        Rejection::WrongLength => String::from_str("Số phải có 10 chữ số."),
        Rejection::Prefix => {
            let mut s = String::from_str("Không khớp Prefix '");
            s.append(config.prefix_value.as_str());
            s.append("'");
            s
        },
        Rejection::Suffix => {
            let mut s = String::from_str("Hậu tố không chứa đủ các số yêu cầu (");
            s.append(config.suffix_value.as_str());
            s.append(")");
            s
        },
        Rejection::Blacklist => {
            let mut s = String::from_str("Chứa số bị cấm (");
            s.append(config.blacklist_digits.as_str());
            s.append(")");
            s
        },
        Rejection::StaticBalance => String::from_str("Không qua bộ lọc Chẵn/Lẻ & Tổng 8."),
        Rejection::Compat(CompatFailure::Incomplete) => String::from_str("Không đủ 5 hành."),
        Rejection::Compat(CompatFailure::Dominance) => {
            let mut s = String::from_str("Một hành xuất hiện quá ");
            let n = decimal_string(config.filter_any_max);
            s.append(n.as_str());
            s.append(" lần.");
            s
        },
        Rejection::Compat(CompatFailure::TooManyKhac) => String::from_str(
            "Vượt quá số lượng Hành Khắc Mệnh.",
        ),
        Rejection::Compat(CompatFailure::TooManyBiKhac) => String::from_str(
            "Vượt quá số lượng Hành Bị Khắc.",
        ),
        Rejection::Compat(CompatFailure::TooFewSinh) => String::from_str(
            "Không đủ số lượng Hành Sinh Mệnh.",
        ),
        Rejection::Compat(CompatFailure::TooFewCung) => String::from_str(
            "Không đủ số lượng Hành Cùng Mệnh.",
        ),
        Rejection::Compat(CompatFailure::TooManySinhCung) => String::from_str(
            "Tổng (Sinh + Cùng) quá lớn.",
        ),
        Rejection::NotAbsoluteBalance => String::from_str(
            "Không đạt Cân bằng tuyệt đối (2 số mỗi hành).",
        ),
    }
}

/// Checks one number and says why it fails, or gives its score in tenths.
pub fn quick_check_single_number(number_str: &str, config: &AnalyzeConfig) -> (r: CheckResult)
    ensures
        match verdict(number_str@, *config) {
            Ok(score) => r == CheckResult::Valid { score_tenths: score as i64 },
            Err(e) => r matches CheckResult::Invalid { reason } && reason@ == reason_text(
                e,
                *config,
            ),
        },
{
    match evaluate(number_str, config) {
        Ok(res) => CheckResult::Valid { score_tenths: res.score_tenths },
        Err(e) => CheckResult::Invalid { reason: rejection_text(e, config) },
    }
}

/// The ranking entry of a result: its number's text and its score.
pub open spec fn entry_of(r: AnalyzeResult) -> (Seq<char>, int) {
    (r.number@, r.score_tenths as int)
}

pub open spec fn entries(s: Seq<AnalyzeResult>) -> Seq<(Seq<char>, int)> {
    s.map_values(|r: AnalyzeResult| entry_of(r))
}

/// The lines of a text, split at each '\n', scanning from position `i`
/// inside the line that starts at `start`.
pub open spec fn lines_from(s: Seq<char>, start: int, i: int) -> Seq<Seq<char>>
    decreases s.len() - i,
{
    if i >= s.len() {
        seq![s.subrange(start, s.len() as int)]
    } else if s[i] == '\n' {
        seq![s.subrange(start, i)] + lines_from(s, i + 1, i + 1)
    } else {
        lines_from(s, start, i + 1)
    }
}

/// The lines of a text, split at each '\n'. A line's trailing '\r', and the
/// empty line after a final '\n', hold no digits of a first token.
pub open spec fn text_lines(s: Seq<char>) -> Seq<Seq<char>> {
    lines_from(s, 0, 0)
}

/// The ranking entry of a line, if the pipeline accepts it.
pub open spec fn accepted_entry(line: Seq<char>, cfg: AnalyzeConfig) -> Seq<(Seq<char>, int)> {
    match verdict(line, cfg) {
        Ok(score) => seq![(digit_text(line_digits(line)), score)],
        Err(_) => Seq::empty(),
    }
}

/// The entries of the accepted lines, in input order.
pub open spec fn accepted(lines: Seq<Seq<char>>, cfg: AnalyzeConfig) -> Seq<(Seq<char>, int)>
    decreases lines.len(),
{
    if lines.len() == 0 {
        Seq::empty()
    } else {
        accepted_entry(lines[0], cfg) + accepted(lines.drop_first(), cfg)
    }
}

/// Sorts results by descending score; results of equal score keep their order.
pub fn rank_results(v: Vec<AnalyzeResult>) -> (r: Vec<AnalyzeResult>)
    ensures
        entries(r@) == rank(entries(v@)),
{
    let ghost orig = v@;
    let mut rest = v;
    let mut out: Vec<AnalyzeResult> = Vec::new();
    let ghost mut i: int = 0;
    assert(entries(orig.subrange(0, 0)) =~= Seq::<(Seq<char>, int)>::empty());
    while rest.len() > 0
        invariant
            0 <= i <= orig.len(),
            rest@ == orig.subrange(i, orig.len() as int),
            entries(out@) == rank(entries(orig.subrange(0, i))),
        decreases rest@.len(),
    {
        let x = rest.remove(0);
        let ghost before = entries(out@);
        let mut p: usize = 0;
        while p < out.len() && out[p].score_tenths >= x.score_tenths
            invariant
                0 <= p <= out@.len(),
                before == entries(out@),
                first_below(before, x.score_tenths as int, p as int) == first_below(
                    before,
                    x.score_tenths as int,
                    0,
                ),
            decreases out@.len() - p,
        {
            assert(before[p as int].1 == out@[p as int].score_tenths);
            p = p + 1;
        }
        proof {
            if p < out@.len() {
                assert(before[p as int].1 == out@[p as int].score_tenths);
            }
        }
        out.insert(p, x);
        proof {
            assert(entries(out@) =~= before.insert(p as int, entry_of(x)));
            assert(x == orig[i]);
            assert(entries(orig.subrange(0, i + 1)).drop_last() =~= entries(orig.subrange(0, i)));
            i = i + 1;
            assert(rest@ =~= orig.subrange(i, orig.len() as int));
        }
    }
    assert(orig.subrange(0, i) =~= orig);
    out
}

/// Appends the result of `line` to `found` if the pipeline accepts it.
fn push_if_accepted(found: &mut Vec<AnalyzeResult>, line: &str, config: &AnalyzeConfig)
    ensures
        entries(final(found)@) == entries(old(found)@) + accepted_entry(line@, *config),
{
    match evaluate(line, config) {
        Ok(res) => {
            found.push(res);
            assert(entries(found@) =~= entries(old(found)@) + accepted_entry(line@, *config));
        },
        Err(_) => {
            assert(entries(found@) =~= entries(found@) + accepted_entry(line@, *config));
        },
    }
}

proof fn lemma_accepted_cons(l: Seq<char>, rest: Seq<Seq<char>>, cfg: AnalyzeConfig)
    ensures
        accepted(seq![l] + rest, cfg) == accepted_entry(l, cfg) + accepted(rest, cfg),
{
    assert((seq![l] + rest)[0] == l);
    assert((seq![l] + rest).drop_first() =~= rest);
}

/// Runs the pipeline on every line of the text and ranks the accepted
/// numbers by descending score; numbers of equal score keep the order of
/// their lines.
pub fn analyze(phone_numbers_str: &str, config: &AnalyzeConfig) -> (r: Vec<AnalyzeResult>)
    ensures
        entries(r@) == rank(accepted(text_lines(phone_numbers_str@), *config)),
{
    let s = chars_of(phone_numbers_str);
    let n = s.len();
    let mut found: Vec<AnalyzeResult> = Vec::new();
    let mut start: usize = 0;
    let mut i: usize = 0;
    while i < n
        invariant
            s@ == phone_numbers_str@,
            n == s@.len(),
            0 <= start <= i <= n,
            entries(found@) + accepted(lines_from(s@, start as int, i as int), *config)
                == accepted(text_lines(s@), *config),
        decreases n - i,
    {
        if s[i] == '\n' {
            let line = phone_numbers_str.substring_char(start, i);
            let ghost rest = lines_from(s@, i + 1, i + 1);
            let ghost before = entries(found@);
            proof {
                lemma_accepted_cons(line@, rest, *config);
            }
            push_if_accepted(&mut found, line, config);
            proof {
                vstd::seq_lib::lemma_concat_associative(
                    before,
                    accepted_entry(line@, *config),
                    accepted(rest, *config),
                );
            }
            start = i + 1;
        }
        i = i + 1;
    }
    let line = phone_numbers_str.substring_char(start, n);
    proof {
        lemma_accepted_cons(line@, Seq::empty(), *config);
        assert(seq![line@] + Seq::<Seq<char>>::empty() =~= seq![line@]);
        assert(accepted(Seq::<Seq<char>>::empty(), *config) == Seq::<(Seq<char>, int)>::empty());
        assert(accepted_entry(line@, *config) + Seq::<(Seq<char>, int)>::empty() =~= accepted_entry(
            line@,
            *config,
        ));
    }
    push_if_accepted(&mut found, line, config);
    rank_results(found)
}

/// An accepted number never has an element occurring more than
/// `filter_any_max` times among its transformed digits. In the absolute-balance
/// mode every element occurs twice, so there this needs `filter_any_max >= 2`.
pub proof fn lemma_accepted_within_any_max(line: Seq<char>, cfg: AnalyzeConfig)
    requires
        verdict(line, cfg) is Ok,
        cfg.mode == AnalysisMode::Compatibility || cfg.filter_any_max >= 2,
    ensures
        forall|k: int|
            0 <= k < 5 ==> #[trigger] count_of(transform(line_digits(line)), element_at(k))
                <= cfg.filter_any_max,
{
}

/// Every entry of the ranked batch output comes from a line that the pipeline
/// accepted with that score, and no element occurs more than `filter_any_max`
/// times among that line's transformed digits.
pub proof fn lemma_ranked_within_any_max(lines: Seq<Seq<char>>, cfg: AnalyzeConfig, x: (Seq<char>, int))
    requires
        rank(accepted(lines, cfg)).contains(x),
        cfg.mode == AnalysisMode::Compatibility || cfg.filter_any_max >= 2,
    ensures
        exists|i: int|
            0 <= i < lines.len() && verdict(#[trigger] lines[i], cfg) == Ok::<int, Rejection>(x.1)
                && x.0 == digit_text(line_digits(lines[i])) && forall|k: int|
                0 <= k < 5 ==> #[trigger] count_of(transform(line_digits(lines[i])), element_at(k))
                    <= cfg.filter_any_max,
{
    lemma_rank_ordered_and_stable(accepted(lines, cfg));
    lemma_accepted_from_lines(lines, cfg, x);
    let i = choose|i: int|
        0 <= i < lines.len() && verdict(#[trigger] lines[i], cfg) == Ok::<int, Rejection>(x.1)
            && x.0 == digit_text(line_digits(lines[i]));
    lemma_accepted_within_any_max(lines[i], cfg);
}

proof fn lemma_accepted_from_lines(lines: Seq<Seq<char>>, cfg: AnalyzeConfig, x: (Seq<char>, int))
    requires
        accepted(lines, cfg).contains(x),
    ensures
        exists|i: int|
            0 <= i < lines.len() && verdict(#[trigger] lines[i], cfg) == Ok::<int, Rejection>(x.1)
                && x.0 == digit_text(line_digits(lines[i])),
    decreases lines.len(),
{
    let head = accepted_entry(lines[0], cfg);
    let tail = accepted(lines.drop_first(), cfg);
    let k = choose|k: int| 0 <= k < (head + tail).len() && (head + tail)[k] == x;
    if k < head.len() {
        assert(verdict(lines[0], cfg) == Ok::<int, Rejection>(x.1));
    } else {
        assert(tail[k - head.len()] == x);
        lemma_accepted_from_lines(lines.drop_first(), cfg, x);
        let i = choose|i: int|
            0 <= i < lines.drop_first().len() && verdict(#[trigger] lines.drop_first()[i], cfg)
                == Ok::<int, Rejection>(x.1) && x.0 == digit_text(line_digits(lines.drop_first()[i]));
        assert(lines[i + 1] == lines.drop_first()[i]);
    }
}

/// In the absolute-balance mode the verdict does not depend on the user's element.
pub proof fn lemma_absolute_balance_ignores_menh(line: Seq<char>, cfg: AnalyzeConfig, menh: Element)
    requires
        cfg.mode == AnalysisMode::AbsoluteBalance,
    ensures
        verdict(line, cfg) == verdict(line, AnalyzeConfig { user_menh: menh, ..cfg }),
{
}

proof fn lemma_lines_without_break(s: Seq<char>, start: int, i: int)
    requires
        0 <= start <= i <= s.len(),
        forall|k: int| 0 <= k < s.len() ==> s[k] != '\n',
    ensures
        lines_from(s, start, i) == seq![s.subrange(start, s.len() as int)],
    decreases s.len() - i,
{
    if i < s.len() {
        lemma_lines_without_break(s, start, i + 1);
    }
}

/// The batch and the single-number entry points agree: on a text of one
/// line, the batch output holds that line's number exactly when the single
/// check accepts it, with the same score.
pub proof fn lemma_batch_agrees_with_single(line: Seq<char>, cfg: AnalyzeConfig)
    requires
        forall|k: int| 0 <= k < line.len() ==> line[k] != '\n',
    ensures
        rank(accepted(text_lines(line), cfg)) == match verdict(line, cfg) {
            Ok(score) => seq![(digit_text(line_digits(line)), score)],
            Err(_) => Seq::<(Seq<char>, int)>::empty(),
        },
{
    lemma_lines_without_break(line, 0, 0);
    assert(line.subrange(0, line.len() as int) =~= line);
    let ls = seq![line];
    assert(ls.drop_first() =~= Seq::<Seq<char>>::empty());
    assert(accepted(ls.drop_first(), cfg) == Seq::<(Seq<char>, int)>::empty());
    let a = accepted(ls, cfg);
    assert(a =~= accepted_entry(line, cfg));
    lemma_rank_ordered_and_stable(a);
    if a.len() == 1 {
        assert(a.drop_last() =~= Seq::<(Seq<char>, int)>::empty());
        assert(rank(a.drop_last()) == Seq::<(Seq<char>, int)>::empty());
        assert(rank(a) =~= a);
    } else {
        assert(rank(a) =~= a);
    }
}

} // verus!
