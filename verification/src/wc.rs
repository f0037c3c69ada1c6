use vstd::prelude::*;
use vstd::string::StringSliceAdditionalSpecFns;
use vstd::string::StrSliceExecFns;
use vstd::string::StringExecFns;

verus! {

/// Whether `c` is white space (the Unicode `White_Space` property, as `char::is_whitespace`).
pub open spec fn spec_is_whitespace(c: char) -> bool {
    c == '\t' || c == '\n' || c == '\u{0B}' || c == '\u{0C}' || c == '\r' || c == ' ' || c == '\u{85}'
        || c == '\u{A0}' || c == '\u{1680}' || ('\u{2000}' <= c && c <= '\u{200A}') || c == '\u{2028}'
        || c == '\u{2029}' || c == '\u{202F}' || c == '\u{205F}' || c == '\u{3000}'
}

/// The number of words in `s`: maximal runs of characters that are not white space.
pub open spec fn word_count(s: Seq<char>) -> nat
    decreases s.len(),
{
    if s.len() == 0 {
        0
    } else {
        let prev = word_count(s.drop_last());
        if !spec_is_whitespace(s.last()) && (s.len() == 1 || spec_is_whitespace(s[s.len() - 2])) {
            prev + 1
        } else {
            prev
        }
    }
}

/// The number of newline characters in `s`.
pub open spec fn newline_count(s: Seq<char>) -> nat
    decreases s.len(),
{
    if s.len() == 0 {
        0
    } else {
        newline_count(s.drop_last()) + if s.last() == '\n' { 1nat } else { 0nat }
    }
}

/// The number of lines in `s`, as `str::lines` splits it: one per newline, plus one for
/// text after the last newline.
pub open spec fn line_count(s: Seq<char>) -> nat {
    if s.len() == 0 {
        0
    } else if s.last() == '\n' {
        newline_count(s)
    } else {
        newline_count(s) + 1
    }
}

/// Whether `c` is white space, as `char::is_whitespace` decides.
pub fn is_whitespace(c: char) -> (r: bool)
    ensures
        r == spec_is_whitespace(c),
{
    c == '\t' || c == '\n' || c == '\u{0B}' || c == '\u{0C}' || c == '\r' || c == ' ' || c == '\u{85}'
        || c == '\u{A0}' || c == '\u{1680}' || ('\u{2000}' <= c && c <= '\u{200A}') || c == '\u{2028}'
        || c == '\u{2029}' || c == '\u{202F}' || c == '\u{205F}' || c == '\u{3000}'
}

/// The number of words in `content`, as `split_whitespace().count()` gives it.
pub fn count_words(content: &str) -> (r: usize)
    ensures
        r == word_count(content@),
{
    let total = content.unicode_len();
    let mut n: usize = 0;
    let mut i: usize = 0;
    let mut prev_ws = true;
    for c in iter: content.chars()
        invariant
            iter.seq() == content@,
            total == content@.len(),
            i == iter.index(),
            n == word_count(content@.take(iter.index() as int)),
            n <= iter.index(),
            prev_ws == (iter.index() == 0 || spec_is_whitespace(content@[iter.index() - 1])),
    {
        let ws = is_whitespace(c);
        proof {
            let k = iter.index() as int;
            assert(content@.take(k + 1).drop_last() =~= content@.take(k));
        }
        if !ws && prev_ws {
            n = n + 1;
        }
        prev_ws = ws;
        i = i + 1;
    }
    proof {
        assert(content@.take(content@.len() as int) =~= content@);
    }
    n
}

/// The number of lines in `content`, as `lines().count()` gives it.
pub fn count_lines(content: &str) -> (r: usize)
    ensures
        r == line_count(content@),
{
    let total = content.unicode_len();
    let mut n: usize = 0;
    let mut i: usize = 0;
    let mut last: Option<char> = None;
    for c in iter: content.chars()
        invariant
            iter.seq() == content@,
            total == content@.len(),
            i == iter.index(),
            n == newline_count(content@.take(iter.index() as int)),
            n <= iter.index(),
            last == (if iter.index() == 0 { None } else { Some(content@[iter.index() - 1]) }),
            last matches Some(c) && c != '\n' ==> n < i,
    {
        proof {
            let k = iter.index() as int;
            assert(content@.take(k + 1).drop_last() =~= content@.take(k));
        }
        if c == '\n' {
            n = n + 1;
        }
        last = Some(c);
        i = i + 1;
    }
    proof {
        assert(content@.take(content@.len() as int) =~= content@);
    }
    match last {
        None => 0,
        Some(c) => if c == '\n' { n } else { n + 1 },
    }
}

/// The number of characters in `content`, as `chars().count()` gives it.
pub fn count_chars(content: &str) -> (r: usize)
    ensures
        r == content@.len(),
{
    content.unicode_len()
}

/// The number of bytes of `content` in UTF-8, as `bytes().count()` gives it.
pub fn count_bytes(content: &str) -> (r: usize)
    ensures
        r == content.spec_bytes().len() as usize,
{
    content.len()
}


/// Whether `pat` occurs in `s` as a run of consecutive characters.
pub open spec fn contains_seq(s: Seq<char>, pat: Seq<char>) -> bool {
    exists|i: int| 0 <= i && i + pat.len() <= s.len() && #[trigger] s.subrange(i, i + pat.len()) == pat
}

/// Whether two strings hold the same characters, as `==` on strings decides.
pub fn str_eq(a: &str, b: &str) -> (r: bool)
    ensures
        r == (a@ == b@),
{
    let n = a.unicode_len();
    let m = b.unicode_len();
    if n != m {
        return false;
    }
    let mut i: usize = 0;
    while i < n
        invariant
            i <= n,
            n == a@.len(),
            m == b@.len(),
            n == m,
            forall|k: int| 0 <= k < i ==> a@[k] == b@[k],
        decreases n - i,
    {
        if a.get_char(i) != b.get_char(i) {
            return false;
        }
        i = i + 1;
    }
    assert(a@ =~= b@);
    true
}

/// Whether `pat` occurs in `s`, as `str::contains` decides for a string pattern.
pub fn has_substring(s: &str, pat: &str) -> (r: bool)
    ensures
        r == contains_seq(s@, pat@),
{
    let n = s.unicode_len();
    let m = pat.unicode_len();
    if m > n {
        return false;
    }
    let mut i: usize = 0;
    while i <= n - m
        invariant
            n == s@.len(),
            m == pat@.len(),
            m <= n,
            i <= n - m + 1,
            forall|k: int| 0 <= k < i ==> #[trigger] s@.subrange(k, k + m) != pat@,
        decreases n - m + 1 - i,
    {
        let mut j: usize = 0;
        let mut same = true;
        while j < m
            invariant
                j <= m,
                i + m <= n,
                n == s@.len(),
                m == pat@.len(),
                same == (forall|k: int| 0 <= k < j ==> s@[i + k] == pat@[k]),
            decreases m - j,
        {
            if s.get_char(i + j) != pat.get_char(j) {
                same = false;
            }
            j = j + 1;
        }
        if same {
            assert(s@.subrange(i as int, i + m) =~= pat@);
            return true;
        }
        proof {
            if s@.subrange(i as int, i + m) == pat@ {
                assert forall|k: int| 0 <= k < m implies s@[i + k] == pat@[k] by {
                    assert(s@.subrange(i as int, i + m)[k] == s@[i + k]);
                }
            }
        }
        i = i + 1;
    }
    false
}

/// What a count option asks for.
#[derive(Debug, Clone, Copy, PartialEq, Eq, Structural)]
pub enum CountKind {
    Bytes,
    Chars,
    Lines,
    Words,
}

/// The count an option asks for: "c" or one naming bytes, "m" or one naming chars,
/// "l" or one naming lines, "w" or one naming words, tried in that order.
pub open spec fn modifier_kind(m: Seq<char>) -> Option<CountKind> {
    if m == "c"@ || contains_seq(m, "bytes"@) {
        Some(CountKind::Bytes)
    } else if m == "m"@ || contains_seq(m, "chars"@) {
        Some(CountKind::Chars)
    } else if m == "l"@ || contains_seq(m, "lines"@) {
        Some(CountKind::Lines)
    } else if m == "w"@ || contains_seq(m, "words"@) {
        Some(CountKind::Words)
    } else {
        None
    }
}

/// The count an option asks for.
pub fn modifier_kind_of(m: &str) -> (r: Option<CountKind>)
    ensures
        r == modifier_kind(m@),
{
    if str_eq(m, "c") || has_substring(m, "bytes") {
        Some(CountKind::Bytes)
    } else if str_eq(m, "m") || has_substring(m, "chars") {
        Some(CountKind::Chars)
    } else if str_eq(m, "l") || has_substring(m, "lines") {
        Some(CountKind::Lines)
    } else if str_eq(m, "w") || has_substring(m, "words") {
        Some(CountKind::Words)
    } else {
        None
    }
}


/// The command line, sorted: long options without their dashes, the letters of short
/// options, and the input file.
pub struct Arguments {
    pub modifiers: Vec<String>,
    pub char_modifiers: Vec<char>,
    pub file: Option<String>,
}

/// The characters of each string.
pub open spec fn string_views(v: Seq<String>) -> Seq<Seq<char>> {
    v.map_values(|s: String| s@)
}

/// An argument that starts with two dashes.
pub open spec fn is_long_option(a: Seq<char>) -> bool {
    a.len() >= 2 && a[0] == '-' && a[1] == '-'
}

/// An argument that starts with one dash but not two.
pub open spec fn is_short_option(a: Seq<char>) -> bool {
    !is_long_option(a) && a.len() >= 1 && a[0] == '-'
}

/// The long options among `args`, in order, without their dashes.
pub open spec fn spec_modifiers(args: Seq<Seq<char>>) -> Seq<Seq<char>>
    decreases args.len(),
{
    if args.len() == 0 {
        Seq::empty()
    } else {
        let prev = spec_modifiers(args.drop_last());
        if is_long_option(args.last()) {
            prev.push(args.last().skip(2))
        } else {
            prev
        }
    }
}

/// The letters of the short options among `args`, in order.
pub open spec fn spec_char_modifiers(args: Seq<Seq<char>>) -> Seq<char>
    decreases args.len(),
{
    if args.len() == 0 {
        Seq::empty()
    } else {
        let prev = spec_char_modifiers(args.drop_last());
        if is_short_option(args.last()) {
            prev + args.last().skip(1)
        } else {
            prev
        }
    }
}

/// The last argument that is no option, if any.
pub open spec fn spec_file(args: Seq<Seq<char>>) -> Option<Seq<char>>
    decreases args.len(),
{
    if args.len() == 0 {
        None
    } else if !is_long_option(args.last()) && !is_short_option(args.last()) {
        Some(args.last())
    } else {
        spec_file(args.drop_last())
    }
}

/// Sorts the command line: an argument starting with "--" is a long option, one
/// starting with "-" gives one short option per following letter, and any other is
/// the input file, the last one winning.
pub fn parse_args(args: Vec<String>) -> (r: Arguments)
    ensures
        string_views(r.modifiers@) == spec_modifiers(string_views(args@)),
        r.char_modifiers@ == spec_char_modifiers(string_views(args@)),
        (match r.file {
            Some(f) => spec_file(string_views(args@)) == Some(f@),
            None => spec_file(string_views(args@)) is None,
        }),
{
    let ghost views = string_views(args@);
    let mut modifiers: Vec<String> = Vec::new();
    let mut char_modifiers: Vec<char> = Vec::new();
    let mut file: Option<String> = None;
    let mut i: usize = 0;
    while i < args.len()
        invariant
            i <= args@.len(),
            views == string_views(args@),
            string_views(modifiers@) == spec_modifiers(views.take(i as int)),
            char_modifiers@ == spec_char_modifiers(views.take(i as int)),
            (match file {
                Some(f) => spec_file(views.take(i as int)) == Some(f@),
                None => spec_file(views.take(i as int)) is None,
            }),
        decreases args@.len() - i,
    {
        let s: &str = args[i].as_str();
        let ghost a = views[i as int];
        proof {
            assert(views.take(i + 1).drop_last() =~= views.take(i as int));
            assert(views.take(i + 1).last() == a);
            assert(a == s@);
        }
        let n = s.unicode_len();
        if n >= 2 && s.get_char(0) == '-' && s.get_char(1) == '-' {
            let rest = String::from_str(s.substring_char(2, n));
            proof {
                assert(rest@ =~= a.skip(2));
            }
            let ghost before = modifiers@;
            modifiers.push(rest);
            proof {
                assert(string_views(modifiers@) =~= string_views(before).push(rest@));
            }
        } else if n >= 1 && s.get_char(0) == '-' {
            let ghost before = char_modifiers@;
            let mut k: usize = 1;
            while k < n
                invariant
                    1 <= k <= n,
                    n == s@.len(),
                    char_modifiers@ == before + s@.subrange(1, k as int),
                decreases n - k,
            {
                char_modifiers.push(s.get_char(k));
                k = k + 1;
                assert(char_modifiers@ =~= before + s@.subrange(1, k as int));
            }
            assert(s@.subrange(1, n as int) =~= a.skip(1));
        } else {
            file = Some(String::from_str(s));
        }
        i = i + 1;
    }
    assert(views.take(args@.len() as int) =~= views);
    Arguments { modifiers, char_modifiers, file }
}


/// With no option at all, asks for words, bytes, characters and lines, in that order.
pub fn apply_default_modifiers(args: &mut Arguments)
    ensures
        final(args).modifiers@ == old(args).modifiers@,
        final(args).file == old(args).file,
        final(args).char_modifiers@ == (if old(args).modifiers@.len() == 0 && old(args).char_modifiers@.len() == 0 {
            seq!['w', 'c', 'm', 'l']
        } else {
            old(args).char_modifiers@
        }),
{
    if args.modifiers.len() == 0 && args.char_modifiers.len() == 0 {
        args.char_modifiers.push('w');
        args.char_modifiers.push('c');
        args.char_modifiers.push('m');
        args.char_modifiers.push('l');
        assert(args.char_modifiers@ =~= seq!['w', 'c', 'm', 'l']);
    }
}

/// Whether the long options include `name`.
pub fn has_modifier(args: &Arguments, name: &str) -> (r: bool)
    ensures
        r == string_views(args.modifiers@).contains(name@),
{
    let ghost views = string_views(args.modifiers@);
    let mut i: usize = 0;
    while i < args.modifiers.len()
        invariant
            i <= args.modifiers@.len(),
            views == string_views(args.modifiers@),
            forall|k: int| 0 <= k < i ==> views[k] != name@,
        decreases args.modifiers@.len() - i,
    {
        if str_eq(args.modifiers[i].as_str(), name) {
            assert(views[i as int] == name@);
            return true;
        }
        i = i + 1;
    }
    false
}

/// What the tool does: print its version, print its help, or count.
#[derive(Debug, Clone, Copy, PartialEq, Eq, Structural)]
pub enum WcAction {
    Version,
    Help,
    Count,
}

/// The version when "--version" is given, else the help when "--help" is, else counting.
pub fn wc_action(args: &Arguments) -> (r: WcAction)
    ensures
        r == (if string_views(args.modifiers@).contains("version"@) {
            WcAction::Version
        } else if string_views(args.modifiers@).contains("help"@) {
            WcAction::Help
        } else {
            WcAction::Count
        }),
{
    if has_modifier(args, "version") {
        WcAction::Version
    } else if has_modifier(args, "help") {
        WcAction::Help
    } else {
        WcAction::Count
    }
}

/// The count a single-letter option asks for.
pub fn char_modifier_kind(c: char) -> (r: Option<CountKind>)
    ensures
        r == modifier_kind(seq![c]),
{
    proof {
        reveal_strlit("c");
        reveal_strlit("m");
        reveal_strlit("l");
        reveal_strlit("w");
        reveal_strlit("bytes");
        reveal_strlit("chars");
        reveal_strlit("lines");
        reveal_strlit("words");
        assert(!contains_seq(seq![c], "bytes"@));
        assert(!contains_seq(seq![c], "chars"@));
        assert(!contains_seq(seq![c], "lines"@));
        assert(!contains_seq(seq![c], "words"@));
        lemma_single_char_literal(c, 'c', "c");
        lemma_single_char_literal(c, 'm', "m");
        lemma_single_char_literal(c, 'l', "l");
        lemma_single_char_literal(c, 'w', "w");
    }
    if c == 'c' {
        Some(CountKind::Bytes)
    } else if c == 'm' {
        Some(CountKind::Chars)
    } else if c == 'l' {
        Some(CountKind::Lines)
    } else if c == 'w' {
        Some(CountKind::Words)
    } else {
        None
    }
}

/// A one-character string literal holds exactly that character.
proof fn lemma_single_char_literal(c: char, d: char, lit: &str)
    requires
        lit@.len() == 1,
        lit@[0] == d,
    ensures
        (seq![c] == lit@) == (c == d),
{
    if c == d {
        assert(seq![c] =~= lit@);
    } else {
        assert(seq![c][0] != lit@[0]);
    }
}

/// The decimal digit `d` as a character.
pub open spec fn digit_char(d: nat) -> char {
    (48 + d) as char
}

/// The decimal numeral of `n`, without leading zeros.
pub open spec fn spec_decimal(n: nat) -> Seq<char>
    decreases n,
{
    if n < 10 {
        seq![digit_char(n)]
    } else {
        spec_decimal(n / 10).push(digit_char(n % 10))
    }
}

/// `usize::to_string`: the `Display` form of an unsigned integer is its decimal numeral.
#[verifier::external_body]
pub(crate) fn decimal_string(n: usize) -> (r: String)
    ensures
        r@ == spec_decimal(n as nat),
{
    n.to_string()
}

/// What one count gives for a text of characters `text` and UTF-8 length `nbytes`.
pub open spec fn count_value(kind: CountKind, text: Seq<char>, nbytes: nat) -> nat {
    match kind {
        CountKind::Bytes => nbytes,
        CountKind::Chars => text.len(),
        CountKind::Lines => line_count(text),
        CountKind::Words => word_count(text),
    }
}

/// The report for options `mods`, in order: each option that asks for a count adds the
/// count and three spaces; the others add nothing.
pub open spec fn report(text: Seq<char>, nbytes: nat, mods: Seq<Seq<char>>) -> Seq<char>
    decreases mods.len(),
{
    if mods.len() == 0 {
        Seq::empty()
    } else {
        let prev = report(text, nbytes, mods.drop_last());
        match modifier_kind(mods.last()) {
            Some(k) => prev + spec_decimal(count_value(k, text, nbytes)) + "   "@,
            None => prev,
        }
    }
}

/// The options to report on: the long ones, then each letter of the short ones.
pub open spec fn all_modifiers(args: Arguments) -> Seq<Seq<char>> {
    string_views(args.modifiers@) + args.char_modifiers@.map_values(|c: char| seq![c])
}

/// The count of `kind` for `content`.
fn count_of(kind: CountKind, content: &str) -> (r: usize)
    ensures
        r == count_value(kind, content@, content.len() as nat),
{
    match kind {
        CountKind::Bytes => count_bytes(content),
        CountKind::Chars => count_chars(content),
        CountKind::Lines => count_lines(content),
        CountKind::Words => count_words(content),
    }
}

/// The line the tool prints: the requested counts, each followed by three spaces, then
/// the file name.
pub fn wc_output(content: &str, args: &Arguments, file: &str) -> (r: String)
    ensures
        r@ == report(content@, content.len() as nat, all_modifiers(*args)) + file@,
{
    let ghost text = content@;
    let ghost nbytes = content.len() as nat;
    let ghost mods = all_modifiers(*args);
    let nm = args.modifiers.len();
    let mut output = String::new();
    let mut i: usize = 0;
    while i < nm
        invariant
            i <= nm,
            nm == args.modifiers@.len(),
            mods == all_modifiers(*args),
            text == content@,
            nbytes == content.len() as nat,
            output@ == report(text, nbytes, mods.take(i as int)),
        decreases nm - i,
    {
        proof {
            assert(mods.take(i + 1).drop_last() =~= mods.take(i as int));
            assert(mods.take(i + 1).last() == args.modifiers@[i as int]@);
        }
        let kind = modifier_kind_of(args.modifiers[i].as_str());
        match kind {
            Some(k) => {
                let n = count_of(k, content);
                let digits = decimal_string(n);
                let ghost before = output@;
                assert(n as nat == count_value(k, text, nbytes));
                assert(digits@ == spec_decimal(count_value(k, text, nbytes)));
                output.append(digits.as_str());
                assert(output@ == before + spec_decimal(count_value(k, text, nbytes)));
                output.append("   ");
                assert(output@ == before + spec_decimal(count_value(k, text, nbytes)) + "   "@);
            },
            None => {},
        }
        assert(output@ == report(text, nbytes, mods.take(i + 1)));
        i = i + 1;
    }
    let nc = args.char_modifiers.len();
    let mut j: usize = 0;
    while j < nc
        invariant
            j <= nc,
            nm == args.modifiers@.len(),
            nc == args.char_modifiers@.len(),
            mods == all_modifiers(*args),
            mods.len() == nm + nc,
            text == content@,
            nbytes == content.len() as nat,
            output@ == report(text, nbytes, mods.take(nm + j)),
        decreases nc - j,
    {
        proof {
            assert(mods.take(nm + j + 1).drop_last() =~= mods.take(nm + j));
            assert(mods.take(nm + j + 1).last() == seq![args.char_modifiers@[j as int]]);
        }
        let kind = char_modifier_kind(args.char_modifiers[j]);
        match kind {
            Some(k) => {
                let n = count_of(k, content);
                let digits = decimal_string(n);
                output.append(digits.as_str());
                output.append("   ");
            },
            None => {},
        }
        j = j + 1;
    }
    assert(mods.take(nm + nc) =~= mods);
    output.append(file);
    output
}

} // verus!
