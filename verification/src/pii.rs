//! Detection and redaction of personal data with four fixed patterns.

use regex::Regex;
use vstd::prelude::*;

verus! {

/// `regex::Regex`, a compiled pattern. Nothing is known of what is inside.
#[verifier::external_type_specification]
#[verifier::external_body]
pub struct ExRegex(regex::Regex);

/// `regex::Error`, what `Regex::new` reports for a pattern it refuses.
#[verifier::external_type_specification]
#[verifier::external_body]
pub struct ExRegexError(regex::Error);

/// Pattern for e-mail addresses; letters match in either case.
pub const EMAIL_PATTERN: &'static str = r"(?i)\b[A-Za-z0-9._%+-]+@[A-Za-z0-9.-]+\.[A-Z|a-z]{2,}\b";

/// Pattern for international phone numbers: a plus sign, a country code and
/// up to fourteen further digits.
pub const PHONE_PATTERN: &'static str = r"\+(9[976]\d|8[987530]\d|6[987]\d|5[90]\d|42\d|3[875]\d|2[98654321]\d|9[8543210]|8[6421]|6[6543210]|5[87654321]|4[987654310]|3[9643210]|2[70]|7|1)\d{1,14}";

/// Pattern for dotted IPv4 addresses.
pub const IP_PATTERN: &'static str = r"\b(?:\d{1,3}\.){3}\d{1,3}\b";

/// Pattern for sixteen-digit card numbers in groups of four.
pub const CARD_PATTERN: &'static str = r"\b(?:\d{4}[- ]?){3}\d{4}\b";

/// The kinds of personal data that are looked for.
#[derive(Clone, Copy, Debug, PartialEq, Eq, Structural)]
pub enum Category {
    Email,
    Phone,
    IpAddress,
    CreditCard,
}

impl Category {
    /// The label under which a finding is reported.
    pub open spec fn label_text(self) -> Seq<char> {
        match self {
            Category::Email => "EMAIL"@,
            Category::Phone => "PHONE"@,
            Category::IpAddress => "IP_ADDRESS"@,
            Category::CreditCard => "CREDIT_CARD"@,
        }
    }

    /// The token that takes the place of a match.
    pub open spec fn placeholder_text(self) -> Seq<char> {
        match self {
            Category::Email => "<EMAIL>"@,
            Category::Phone => "<PHONE>"@,
            Category::IpAddress => "<IP_ADDRESS>"@,
            Category::CreditCard => "<CREDIT_CARD>"@,
        }
    }

    /// The pattern that detects this category.
    pub open spec fn pattern_text(self) -> Seq<char> {
        match self {
            Category::Email => EMAIL_PATTERN@,
            Category::Phone => PHONE_PATTERN@,
            Category::IpAddress => IP_PATTERN@,
            Category::CreditCard => CARD_PATTERN@,
        }
    }

    /// The label under which a finding is reported.
    pub fn label(self) -> (s: &'static str)
        ensures
            s@ == self.label_text(),
    {
        match self {
            Category::Email => "EMAIL",
            Category::Phone => "PHONE",
            Category::IpAddress => "IP_ADDRESS",
            Category::CreditCard => "CREDIT_CARD",
        }
    }

    /// The token that takes the place of a match.
    pub fn placeholder(self) -> (s: &'static str)
        ensures
            s@ == self.placeholder_text(),
    {
        match self {
            Category::Email => "<EMAIL>",
            Category::Phone => "<PHONE>",
            Category::IpAddress => "<IP_ADDRESS>",
            Category::CreditCard => "<CREDIT_CARD>",
        }
    }

    /// The pattern that detects this category.
    pub fn pattern(self) -> (s: &'static str)
        ensures
            s@ == self.pattern_text(),
    {
        match self {
            Category::Email => EMAIL_PATTERN,
            Category::Phone => PHONE_PATTERN,
            Category::IpAddress => IP_PATTERN,
            Category::CreditCard => CARD_PATTERN,
        }
    }
}

/// The categories in the order in which they are looked for and replaced.
pub open spec fn categories() -> Seq<Category> {
    seq![Category::Email, Category::Phone, Category::IpAddress, Category::CreditCard]
}

/// What `Regex::new` makes of a pattern: the compiled expression, or `None`
/// where it reports an error.
pub uninterp spec fn compiled(pattern: Seq<char>) -> Option<Regex>;

/// Whether `Regex::is_match` finds a match of `re` anywhere in `text`.
pub uninterp spec fn matches_in(re: Regex, text: Seq<char>) -> bool;

/// What `Regex::replace_all` returns: `text` with every match of `re`
/// replaced as `replacement` says.
pub uninterp spec fn replaced_all(re: Regex, text: Seq<char>, replacement: Seq<char>) -> Seq<char>;

/// Whether all four patterns compile.
pub open spec fn patterns_compile() -> bool {
    forall|c: Category| (#[trigger] compiled(c.pattern_text())).is_some()
}

/// The compiled pattern of a category.
pub open spec fn detector(c: Category) -> Regex {
    compiled(c.pattern_text())->Some_0
}

/// Whether `text` holds a match of the category's pattern.
pub open spec fn detects(c: Category, text: Seq<char>) -> bool {
    matches_in(detector(c), text)
}

/// The categories among the first `n` that `text` holds, in order.
pub open spec fn findings_among(text: Seq<char>, n: nat) -> Seq<Category>
    decreases n,
{
    if n == 0 {
        Seq::empty()
    } else {
        let rest = findings_among(text, (n - 1) as nat);
        let c = categories()[n - 1];
        if detects(c, text) {
            rest.push(c)
        } else {
            rest
        }
    }
}

/// The categories that `text` holds, each once, in the fixed order.
pub open spec fn findings(text: Seq<char>) -> Seq<Category> {
    findings_among(text, 4)
}

/// `text` after the first `n` categories have been replaced one after the
/// other, each pass working on what the pass before it left.
pub open spec fn scrubbed_through(text: Seq<char>, n: nat) -> Seq<char>
    decreases n,
{
    if n == 0 {
        text
    } else {
        let c = categories()[n - 1];
        replaced_all(detector(c), scrubbed_through(text, (n - 1) as nat), c.placeholder_text())
    }
}

/// `text` after all four passes.
pub open spec fn scrubbed(text: Seq<char>) -> Seq<char> {
    scrubbed_through(text, 4)
}

/// The labels of a sequence of categories.
pub open spec fn labels_of(found: Seq<Category>) -> Seq<Seq<char>> {
    found.map_values(|c: Category| c.label_text())
}

/// Calls `Regex::new`. States that the outcome is fixed by the pattern:
/// the same pattern gives the same expression, or fails, every time.
#[verifier::external_body]
fn compile(pattern: &str) -> (r: Result<Regex, regex::Error>)
    ensures
        match r {
            Ok(re) => compiled(pattern@) == Some(re),
            Err(_) => compiled(pattern@).is_none(),
        },
{
    Regex::new(pattern)
}

/// Calls `Regex::is_match`.
#[verifier::external_body]
fn is_match(re: &Regex, text: &str) -> (found: bool)
    ensures
        found == matches_in(*re, text@),
{
    re.is_match(text)
}

/// Calls `Regex::replace_all` and takes the result as an owned string.
/// States, as the method's documentation does, that a text without a match
/// comes back unchanged.
#[verifier::external_body]
fn replace_all(re: &Regex, text: &str, replacement: &str) -> (out: String)
    ensures
        out@ == replaced_all(*re, text@, replacement@),
        !matches_in(*re, text@) ==> out@ == text@,
{
    re.replace_all(text, replacement).into_owned()
}

fn category_at(i: usize) -> (c: Category)
    requires
        i < 4,
    ensures
        c == categories()[i as int],
{
    if i == 0 {
        Category::Email
    } else if i == 1 {
        Category::Phone
    } else if i == 2 {
        Category::IpAddress
    } else {
        Category::CreditCard
    }
}

/// One category with its compiled pattern.
struct Detector {
    category: Category,
    regex: Regex,
}

/// The four detectors, compiled once and then only read.
pub struct PatternSet {
    detectors: Vec<Detector>,
}

impl PatternSet {
    #[verifier::type_invariant]
    spec fn well_formed(&self) -> bool {
        &&& self.detectors@.len() == 4
        &&& forall|i: int|
            0 <= i < 4 ==> {
                &&& (#[trigger] self.detectors@[i]).category == categories()[i]
                &&& compiled(categories()[i].pattern_text()) == Some(self.detectors@[i].regex)
            }
    }

    /// Compiles the four patterns. Gives a set exactly when all of them
    /// compile.
    pub fn new() -> (r: Option<PatternSet>)
        ensures
            r.is_some() == patterns_compile(),
    {
        let mut detectors: Vec<Detector> = Vec::new();
        let mut i: usize = 0;
        while i < 4
            invariant
                i <= 4,
                detectors@.len() == i,
                forall|j: int|
                    0 <= j < i ==> {
                        &&& (#[trigger] detectors@[j]).category == categories()[j]
                        &&& compiled(categories()[j].pattern_text()) == Some(detectors@[j].regex)
                    },
            decreases 4 - i,
        {
            let category = category_at(i);
            match compile(category.pattern()) {
                Ok(regex) => {
                    detectors.push(Detector { category, regex });
                },
                Err(_) => {
                    return None;
                },
            }
            i += 1;
        }
        assert forall|c: Category| (#[trigger] compiled(c.pattern_text())).is_some() by {
            let k = choose|k: int| 0 <= k < 4 && categories()[k] == c;
            assert(detectors@[k].category == c);
        }
        Some(PatternSet { detectors })
    }

    /// The categories that `text` holds, in the fixed order, each at most
    /// once.
    pub fn scan(&self, text: &str) -> (found: Vec<Category>)
        ensures
            found@ == findings(text@),
    {
        proof {
            use_type_invariant(self);
        }
        let mut found: Vec<Category> = Vec::new();
        let mut i: usize = 0;
        while i < 4
            invariant
                i <= 4,
                self.well_formed(),
                found@ == findings_among(text@, i as nat),
            decreases 4 - i,
        {
            let d = &self.detectors[i];
            if is_match(&d.regex, text) {
                found.push(d.category);
            }
            i += 1;
        }
        found
    }

    /// Replaces every match of each category by the category's placeholder,
    /// one category after the other. Each pass reads what the pass before it
    /// wrote, placeholders included; no pass is kept from matching there.
    /// A text that holds none of the categories comes back unchanged.
    pub fn scrub(&self, text: &str) -> (clean: String)
        ensures
            clean@ == scrubbed(text@),
            findings(text@).len() == 0 ==> clean@ == text@,
    {
        proof {
            use_type_invariant(self);
        }
        let mut clean: String = text.to_owned();
        let mut i: usize = 0;
        while i < 4
            invariant
                i <= 4,
                self.well_formed(),
                clean@ == scrubbed_through(text@, i as nat),
                findings_among(text@, i as nat).len() == 0 ==> clean@ == text@,
            decreases 4 - i,
        {
            let d = &self.detectors[i];
            clean = replace_all(&d.regex, clean.as_str(), d.category.placeholder());
            i += 1;
        }
        proof {
            findings_grow(text@, 4);
        }
        clean
    }
}

/// The findings among the first `n` categories are among those of any larger
/// number: once something is found, the list is not empty.
proof fn findings_grow(text: Seq<char>, n: nat)
    ensures
        forall|m: nat|
            m <= n ==> #[trigger] findings_among(text, m).len() <= findings_among(text, n).len(),
    decreases n,
{
    if n > 0 {
        findings_grow(text, (n - 1) as nat);
    }
}

/// Reports the labels of the categories found in `text`: `EMAIL`, `PHONE`,
/// `IP_ADDRESS`, `CREDIT_CARD`, in this order, each at most once.
pub fn scan_pii_fast(patterns: &PatternSet, text: &str) -> (labels: Vec<String>)
    ensures
        labels.deep_view() == labels_of(findings(text@)),
{
    let found = patterns.scan(text);
    let mut labels: Vec<String> = Vec::new();
    let mut i: usize = 0;
    while i < found.len()
        invariant
            i <= found@.len(),
            labels@.len() == i,
            forall|j: int| 0 <= j < i ==> (#[trigger] labels@[j])@ == found@[j].label_text(),
        decreases found@.len() - i,
    {
        labels.push(found[i].label().to_owned());
        i += 1;
    }
    assert(labels.deep_view() =~= labels_of(found@));
    labels
}

/// Replaces every e-mail address, phone number, IPv4 address and card number
/// in `text` by `<EMAIL>`, `<PHONE>`, `<IP_ADDRESS>` and `<CREDIT_CARD>`, in
/// four passes in this order, each on the output of the pass before it.
pub fn scrub_pii_fast(patterns: &PatternSet, text: &str) -> (clean: String)
    ensures
        clean@ == scrubbed(text@),
        findings(text@).len() == 0 ==> clean@ == text@,
{
    patterns.scrub(text)
}

/// The place of a category in the fixed order.
pub open spec fn rank(c: Category) -> int {
    match c {
        Category::Email => 0,
        Category::Phone => 1,
        Category::IpAddress => 2,
        Category::CreditCard => 3,
    }
}

/// What is found among the first `n` categories: each of them that the text
/// holds, once, in rising order.
proof fn findings_among_are(text: Seq<char>, n: nat)
    requires
        n <= 4,
    ensures
        forall|i: int|
            0 <= i < findings_among(text, n).len() ==> {
                &&& rank(#[trigger] findings_among(text, n)[i]) < n
                &&& detects(findings_among(text, n)[i], text)
            },
        forall|i: int, j: int|
            0 <= i < j < findings_among(text, n).len() ==> rank(
                #[trigger] findings_among(text, n)[i],
            ) < rank(#[trigger] findings_among(text, n)[j]),
        forall|c: Category|
            rank(c) < n && detects(c, text) ==> #[trigger] findings_among(text, n).contains(c),
    decreases n,
{
    if n > 0 {
        let rest = findings_among(text, (n - 1) as nat);
        let last = categories()[n - 1];
        let all = findings_among(text, n);
        findings_among_are(text, (n - 1) as nat);
        assert(rank(last) == n - 1);
        assert forall|c: Category| rank(c) < n && detects(c, text) implies all.contains(c) by {
            if rank(c) < n - 1 {
                assert(rest.contains(c));
                let i = choose|i: int| 0 <= i < rest.len() && rest[i] == c;
                assert(all[i] == c);
            } else {
                assert(c == last);
                assert(all[all.len() - 1] == c);
            }
        }
    }
}

/// A category is among the findings exactly when its pattern matches
/// somewhere in the text. So a text that holds an e-mail address is
/// reported under `EMAIL`.
pub proof fn found_iff_detected(text: Seq<char>, c: Category)
    ensures
        findings(text).contains(c) <==> detects(c, text),
        labels_of(findings(text)).contains(c.label_text()) <==> detects(c, text),
{
    let found = findings(text);
    findings_among_are(text, 4);
    if detects(c, text) {
        assert(found.contains(c));
        let i = choose|i: int| 0 <= i < found.len() && found[i] == c;
        assert(labels_of(found)[i] == c.label_text());
    }
    if labels_of(found).contains(c.label_text()) {
        let i = choose|i: int|
            0 <= i < labels_of(found).len() && labels_of(found)[i] == c.label_text();
        distinct_labels(found[i], c);
        assert(found[i] == c);
    }
}

/// No two categories share a label.
proof fn distinct_labels(a: Category, b: Category)
    requires
        a.label_text() == b.label_text(),
    ensures
        a == b,
{
    reveal_strlit("EMAIL");
    reveal_strlit("PHONE");
    reveal_strlit("IP_ADDRESS");
    reveal_strlit("CREDIT_CARD");
    assert("EMAIL"@.len() == 5 && "EMAIL"@[0] == 'E');
    assert("PHONE"@.len() == 5 && "PHONE"@[0] == 'P');
    assert("IP_ADDRESS"@.len() == 10);
    assert("CREDIT_CARD"@.len() == 11);
}

/// A text in which no pattern matches has no findings.
pub proof fn nothing_detected_nothing_found(text: Seq<char>)
    requires
        forall|c: Category| !detects(c, text),
    ensures
        findings(text) == Seq::<Category>::empty(),
        labels_of(findings(text)) == Seq::<Seq<char>>::empty(),
{
    findings_among_are(text, 4);
    if findings(text).len() > 0 {
        assert(detects(findings(text)[0], text));
    }
    assert(findings(text) =~= Seq::<Category>::empty());
    assert(labels_of(findings(text)) =~= Seq::<Seq<char>>::empty());
}

/// The findings stand in the fixed order, and none stands twice.
pub proof fn findings_are_ordered(text: Seq<char>, i: int, j: int)
    requires
        0 <= i < j < findings(text).len(),
    ensures
        rank(findings(text)[i]) < rank(findings(text)[j]),
{
    findings_among_are(text, 4);
}

} // verus!
