//! The semantic-version model: parsed versions, their total precedence
//! ordering, and requirement matching.
//!
//! Parsing a version string and deciding whether a version satisfies a
//! requirement range are delegated to the `semver` crate behind trusted
//! wrappers; everything built on top of the parsed parts (splitting the
//! pre-release tag into identifiers, ordering, sorting, equality) is
//! verified here.

use vstd::prelude::*;

verus! {

/// The ASCII code of `.`, the separator between pre-release identifiers.
pub const DOT: u8 = 46;

/// Is `b` an ASCII decimal digit?
pub open spec fn is_digit_byte(b: u8) -> bool {
    48 <= b <= 57
}

/// Mathematical model of one dot-separated pre-release identifier.
#[verifier::ext_equal]
pub ghost struct PreIdentView {
    /// True exactly when the identifier consists of one or more digits.
    pub numeric: bool,
    /// The identifier's ASCII bytes.
    pub bytes: Seq<u8>,
}

/// One dot-separated component of a pre-release tag, e.g. `alpha` or `7`
/// in `1.0.0-alpha.7`. Numeric identifiers order differently from
/// alphanumeric ones, so the classification is kept with the bytes.
pub struct PreIdent {
    numeric: bool,
    bytes: Vec<u8>,
}

impl View for PreIdent {
    type V = PreIdentView;

    closed spec fn view(&self) -> PreIdentView {
        PreIdentView { numeric: self.numeric, bytes: self.bytes@ }
    }
}

/// Classification a pre-release identifier gets from its bytes: numeric
/// exactly when non-empty and all digits.
pub open spec fn classify(s: Seq<u8>) -> PreIdentView {
    PreIdentView {
        numeric: s.len() > 0 && (forall|i: int| 0 <= i < s.len() ==> is_digit_byte(#[trigger] s[i])),
        bytes: s,
    }
}

/// Index of the first `.` in `s`, or `s.len()` if there is none.
pub open spec fn first_dot(s: Seq<u8>) -> nat
    decreases s.len(),
{
    if s.len() == 0 {
        0
    } else if s[0] == DOT {
        0
    } else {
        1 + first_dot(s.drop_first())
    }
}

/// `first_dot` is pinned down by its characteristic properties.
proof fn lemma_first_dot_at(s: Seq<u8>, d: int)
    requires
        0 <= d <= s.len(),
        forall|i: int| 0 <= i < d ==> s[i] != DOT,
        d < s.len() ==> s[d] == DOT,
    ensures
        first_dot(s) == d,
    decreases d,
{
    if s.len() == 0 || s[0] == DOT {
    } else {
        assert(d >= 1);
        assert(forall|i: int| 0 <= i < d - 1 ==> s.drop_first()[i] == s[i + 1]);
        lemma_first_dot_at(s.drop_first(), d - 1);
    }
}

/// The pre-release tag `s` split at every `.`, each piece classified.
/// An empty tag (an ordinary release) has no identifiers.
pub open spec fn pre_idents(s: Seq<u8>) -> Seq<PreIdentView>
    decreases s.len(),
{
    if s.len() == 0 {
        Seq::empty()
    } else {
        let d = first_dot(s) as int;
        if 0 <= d < s.len() {
            seq![classify(s.take(d))] + pre_idents(s.skip(d + 1))
        } else {
            seq![classify(s)]
        }
    }
}

/// Is every byte of `v` an ASCII digit (and `v` non-empty)?
fn is_all_digits(v: &[u8]) -> (r: bool)
    ensures
        r == (v@.len() > 0 && (forall|i: int|
            0 <= i < v@.len() ==> is_digit_byte(#[trigger] v@[i]))),
{
    let n = v.len();
    if n == 0 {
        return false;
    }
    let mut i: usize = 0;
    while i < n
        invariant
            0 <= i <= n,
            n == v@.len(),
            forall|k: int| 0 <= k < i ==> is_digit_byte(#[trigger] v@[k]),
        decreases n - i,
    {
        let b = v[i];
        if b < 48 || b > 57 {
            return false;
        }
        i = i + 1;
    }
    true
}

/// Splits the pre-release bytes of a version into classified identifiers,
/// starting at byte `from`.
fn split_pre_from(s: &Vec<u8>, from: usize) -> (r: Vec<PreIdent>)
    requires
        from <= s@.len(),
    ensures
        r@.map_values(|p: PreIdent| p@) == pre_idents(s@.skip(from as int)),
    decreases s@.len() - from,
{
    let n = s.len();
    if from == n {
        let r: Vec<PreIdent> = Vec::new();
        assert(r@.map_values(|p: PreIdent| p@) =~= pre_idents(s@.skip(from as int)));
        return r;
    }
    let ghost t = s@.skip(from as int);

    // Scan for the next dot.
    let mut j = from;
    while j < n && s[j] != DOT
        invariant
            from <= j <= n,
            n == s@.len(),
            forall|k: int| from <= k < j ==> s@[k] != DOT,
        decreases n - j,
    {
        j = j + 1;
    }
    proof {
        assert(forall|i: int| 0 <= i < j - from ==> t[i] == s@[from + i]);
        lemma_first_dot_at(t, j - from);
    }

    // Copy out the identifier's bytes.
    let mut seg: Vec<u8> = Vec::new();
    let mut k = from;
    while k < j
        invariant
            from <= k <= j <= n,
            n == s@.len(),
            seg@ == s@.subrange(from as int, k as int),
        decreases j - k,
    {
        seg.push(s[k]);
        proof {
            assert(seg@ =~= s@.subrange(from as int, k + 1));
        }
        k = k + 1;
    }

    let numeric = is_all_digits(seg.as_slice());
    let ident = PreIdent { numeric, bytes: seg };
    proof {
        if j < n {
            assert(t.take(j - from) =~= s@.subrange(from as int, j as int));
            assert(ident@ =~= classify(t.take(j - from)));
        } else {
            assert(t =~= s@.subrange(from as int, j as int));
            assert(ident@ =~= classify(t));
        }
    }

    let mut result: Vec<PreIdent> = Vec::new();
    result.push(ident);
    if j < n {
        let mut rest = split_pre_from(s, j + 1);
        proof {
            assert(t.skip(j - from + 1) =~= s@.skip(j + 1));
        }
        result.append(&mut rest);
    }
    proof {
        assert(result@.map_values(|p: PreIdent| p@) =~= pre_idents(t));
    }
    result
}

// ---------------------------------------------------------------------------
// Precedence ordering
// ---------------------------------------------------------------------------
/// Strict lexicographic order on byte strings (ASCII sort order), the order
/// used between alphanumeric pre-release identifiers. A proper prefix sorts
/// before its extensions.
pub open spec fn bytes_lt(a: Seq<u8>, b: Seq<u8>) -> bool
    decreases a.len(),
{
    if b.len() == 0 {
        false
    } else if a.len() == 0 {
        true
    } else if a[0] < b[0] {
        true
    } else if a[0] > b[0] {
        false
    } else {
        bytes_lt(a.drop_first(), b.drop_first())
    }
}

proof fn lemma_bytes_lt_connected(a: Seq<u8>, b: Seq<u8>)
    ensures
        bytes_lt(a, b) || bytes_lt(b, a) || a == b,
    decreases a.len(),
{
    if a.len() > 0 && b.len() > 0 && a[0] == b[0] {
        lemma_bytes_lt_connected(a.drop_first(), b.drop_first());
        if a.drop_first() == b.drop_first() {
            assert(a.drop_first().len() == a.len() - 1);
            assert(b.drop_first().len() == b.len() - 1);
            assert(a.len() == b.len());
            assert(forall|i: int| 1 <= i < a.len() ==> a[i] == a.drop_first()[i - 1]);
            assert(forall|i: int| 1 <= i < b.len() ==> b[i] == b.drop_first()[i - 1]);
            assert(a =~= b);
        }
    }
}

proof fn lemma_bytes_lt_irreflexive(a: Seq<u8>)
    ensures
        !bytes_lt(a, a),
    decreases a.len(),
{
    if a.len() > 0 {
        lemma_bytes_lt_irreflexive(a.drop_first());
    }
}

proof fn lemma_bytes_lt_trans(a: Seq<u8>, b: Seq<u8>, c: Seq<u8>)
    requires
        bytes_lt(a, b),
        bytes_lt(b, c),
    ensures
        bytes_lt(a, c),
    decreases a.len() + b.len() + c.len(),
{
    if a.len() > 0 && b.len() > 0 && c.len() > 0 && a[0] == b[0] && b[0] == c[0] {
        lemma_bytes_lt_trans(a.drop_first(), b.drop_first(), c.drop_first());
    }
}

/// Strict order between two pre-release identifiers: numeric identifiers
/// come before alphanumeric ones; numeric identifiers compare by value
/// (equivalently, by length and then byte order, since they carry no leading
/// zeros); alphanumeric identifiers compare in ASCII sort order.
pub open spec fn ident_lt(a: PreIdentView, b: PreIdentView) -> bool {
    if a.numeric && !b.numeric {
        true
    } else if !a.numeric && b.numeric {
        false
    } else if a.numeric && b.numeric {
        a.bytes.len() < b.bytes.len() || (a.bytes.len() == b.bytes.len() && bytes_lt(
            a.bytes,
            b.bytes,
        ))
    } else {
        bytes_lt(a.bytes, b.bytes)
    }
}

proof fn lemma_ident_lt_connected(a: PreIdentView, b: PreIdentView)
    ensures
        ident_lt(a, b) || ident_lt(b, a) || a == b,
{
    lemma_bytes_lt_connected(a.bytes, b.bytes);
    if !ident_lt(a, b) && !ident_lt(b, a) {
        assert(a =~= b);
    }
}

proof fn lemma_ident_lt_irreflexive(a: PreIdentView)
    ensures
        !ident_lt(a, a),
{
    lemma_bytes_lt_irreflexive(a.bytes);
}

proof fn lemma_ident_lt_trans(a: PreIdentView, b: PreIdentView, c: PreIdentView)
    requires
        ident_lt(a, b),
        ident_lt(b, c),
    ensures
        ident_lt(a, c),
{
    if a.numeric && b.numeric && c.numeric {
        if a.bytes.len() == b.bytes.len() && b.bytes.len() == c.bytes.len() {
            lemma_bytes_lt_trans(a.bytes, b.bytes, c.bytes);
        }
    } else if !a.numeric && !b.numeric && !c.numeric {
        lemma_bytes_lt_trans(a.bytes, b.bytes, c.bytes);
    }
}

/// Strict lexicographic order on identifier lists: compared identifier by
/// identifier, and a smaller set of identifiers comes before a larger one
/// when all the shared ones agree.
pub open spec fn idents_lt(a: Seq<PreIdentView>, b: Seq<PreIdentView>) -> bool
    decreases a.len(),
{
    if b.len() == 0 {
        false
    } else if a.len() == 0 {
        true
    } else if ident_lt(a[0], b[0]) {
        true
    } else if ident_lt(b[0], a[0]) {
        false
    } else {
        idents_lt(a.drop_first(), b.drop_first())
    }
}

proof fn lemma_idents_lt_connected(a: Seq<PreIdentView>, b: Seq<PreIdentView>)
    ensures
        idents_lt(a, b) || idents_lt(b, a) || a == b,
    decreases a.len(),
{
    if a.len() > 0 && b.len() > 0 {
        lemma_ident_lt_connected(a[0], b[0]);
        if !ident_lt(a[0], b[0]) && !ident_lt(b[0], a[0]) {
            lemma_idents_lt_connected(a.drop_first(), b.drop_first());
            if a.drop_first() == b.drop_first() {
                assert(a.drop_first().len() == a.len() - 1);
                assert(b.drop_first().len() == b.len() - 1);
                assert(a.len() == b.len());
                assert(forall|i: int| 1 <= i < a.len() ==> a[i] == a.drop_first()[i - 1]);
                assert(forall|i: int| 1 <= i < b.len() ==> b[i] == b.drop_first()[i - 1]);
                assert(a =~= b);
            }
        }
    }
}

proof fn lemma_idents_lt_irreflexive(a: Seq<PreIdentView>)
    ensures
        !idents_lt(a, a),
    decreases a.len(),
{
    if a.len() > 0 {
        lemma_ident_lt_irreflexive(a[0]);
        lemma_idents_lt_irreflexive(a.drop_first());
    }
}

proof fn lemma_idents_lt_trans(a: Seq<PreIdentView>, b: Seq<PreIdentView>, c: Seq<PreIdentView>)
    requires
        idents_lt(a, b),
        idents_lt(b, c),
    ensures
        idents_lt(a, c),
    decreases a.len() + b.len() + c.len(),
{
    if a.len() > 0 && b.len() > 0 && c.len() > 0 {
        lemma_ident_lt_connected(a[0], b[0]);
        lemma_ident_lt_connected(b[0], c[0]);
        if ident_lt(a[0], b[0]) && ident_lt(b[0], c[0]) {
            lemma_ident_lt_trans(a[0], b[0], c[0]);
        } else if ident_lt(a[0], b[0]) && b[0] == c[0] {
        } else if a[0] == b[0] && ident_lt(b[0], c[0]) {
        } else {
            assert(a[0] == b[0] && b[0] == c[0]);
            lemma_idents_lt_trans(a.drop_first(), b.drop_first(), c.drop_first());
        }
    }
}

/// Strict order between two pre-release tags of versions whose numeric
/// triples agree: any pre-release comes before the ordinary release (the
/// empty tag), and two pre-releases compare by their identifier lists.
pub open spec fn pre_lt(a: Seq<PreIdentView>, b: Seq<PreIdentView>) -> bool {
    if a.len() == 0 {
        false
    } else if b.len() == 0 {
        true
    } else {
        idents_lt(a, b)
    }
}

proof fn lemma_pre_lt_connected(a: Seq<PreIdentView>, b: Seq<PreIdentView>)
    ensures
        pre_lt(a, b) || pre_lt(b, a) || a == b,
{
    lemma_idents_lt_connected(a, b);
    if a.len() == 0 && b.len() == 0 {
        assert(a =~= b);
    }
}

proof fn lemma_pre_lt_irreflexive(a: Seq<PreIdentView>)
    ensures
        !pre_lt(a, a),
{
    lemma_idents_lt_irreflexive(a);
}

proof fn lemma_pre_lt_trans(a: Seq<PreIdentView>, b: Seq<PreIdentView>, c: Seq<PreIdentView>)
    requires
        pre_lt(a, b),
        pre_lt(b, c),
    ensures
        pre_lt(a, c),
{
    if b.len() > 0 && c.len() > 0 {
        if a.len() > 0 {
            lemma_idents_lt_trans(a, b, c);
        }
    }
}

// ---------------------------------------------------------------------------
// Versions
// ---------------------------------------------------------------------------
/// Mathematical model of a parsed semantic version: the numeric triple, the
/// classified pre-release identifiers, the raw build-metadata bytes, and the
/// exact text the version was parsed from.
#[verifier::ext_equal]
pub ghost struct VersionView {
    pub major: u64,
    pub minor: u64,
    pub patch: u64,
    pub pre: Seq<PreIdentView>,
    pub build: Seq<u8>,
    pub text: Seq<char>,
}

/// A parsed semantic version. Values are built by [`Version::parse`], so
/// the numeric triple and the pre-release identifiers always agree with the
/// text.
pub struct Version {
    major: u64,
    minor: u64,
    patch: u64,
    pre: Vec<PreIdent>,
    build: Vec<u8>,
    text: String,
}

impl View for Version {
    type V = VersionView;

    closed spec fn view(&self) -> VersionView {
        VersionView {
            major: self.major,
            minor: self.minor,
            patch: self.patch,
            pre: self.pre@.map_values(|p: PreIdent| p@),
            build: self.build@,
            text: self.text@,
        }
    }
}

/// The views of a sequence of versions.
pub open spec fn views_of(s: Seq<Version>) -> Seq<VersionView> {
    s.map_values(|v: Version| v@)
}

/// What `semver::Version::parse` makes of a string: `None` when the string
/// is not a valid semantic version, otherwise the major, minor and patch
/// numbers and the bytes of the pre-release and build-metadata tags.
pub uninterp spec fn sem_version_parts(s: Seq<char>) -> Option<(u64, u64, u64, Seq<u8>, Seq<u8>)>;

/// Relies on `semver::Version::parse`: the result depends on the input text
/// alone, and the struct's public fields carry the parsed parts.
#[verifier::external_body]
fn parse_parts(s: &str) -> (r: Option<(u64, u64, u64, Vec<u8>, Vec<u8>)>)
    ensures
        match r {
            Some(p) => sem_version_parts(s@) == Some((p.0, p.1, p.2, p.3@, p.4@)),
            None => sem_version_parts(s@) is None,
        },
{
    match semver::Version::parse(s) {
        Ok(v) => Some((
            v.major,
            v.minor,
            v.patch,
            v.pre.as_str().as_bytes().to_vec(),
            v.build.as_str().as_bytes().to_vec(),
        )),
        Err(_) => None,
    }
}

/// The version model a string parses to, or `None` when it is not a valid
/// semantic version.
pub open spec fn spec_version_of(s: Seq<char>) -> Option<VersionView> {
    match sem_version_parts(s) {
        Some(p) => Some(
            VersionView {
                major: p.0,
                minor: p.1,
                patch: p.2,
                pre: pre_idents(p.3),
                build: p.4,
                text: s,
            },
        ),
        None => None,
    }
}

/// The views of an optional version.
pub open spec fn view_of_opt(r: Option<Version>) -> Option<VersionView> {
    match r {
        Some(v) => Some(v@),
        None => None,
    }
}

impl Version {
    /// Parses a semantic-version string; unparsable strings yield `None`,
    /// never an error.
    pub fn parse(s: &str) -> (r: Option<Version>)
        ensures
            view_of_opt(r) == spec_version_of(s@),
    {
        match parse_parts(s) {
            Some(p) => {
                let (major, minor, patch, pre_bytes, build) = p;
                let pre = split_pre_from(&pre_bytes, 0);
                proof {
                    assert(pre_bytes@.skip(0) =~= pre_bytes@);
                }
                let v = Version { major, minor, patch, pre, build, text: s.to_owned() };
                proof {
                    assert(v@ =~= spec_version_of(s@)->Some_0);
                }
                Some(v)
            },
            None => None,
        }
    }

    /// The major version number.
    pub fn major(&self) -> (r: u64)
        ensures
            r == self@.major,
    {
        self.major
    }

    /// The minor version number.
    pub fn minor(&self) -> (r: u64)
        ensures
            r == self@.minor,
    {
        self.minor
    }

    /// The patch version number.
    pub fn patch(&self) -> (r: u64)
        ensures
            r == self@.patch,
    {
        self.patch
    }

    /// The text the version was parsed from.
    pub fn text(&self) -> (r: &String)
        ensures
            r@ == self@.text,
    {
        &self.text
    }
}

impl PartialEq for Version {
    /// Two versions are the same exactly when their texts are: a valid
    /// semantic-version string determines every parsed part.
    fn eq(&self, other: &Version) -> (r: bool) {
        self.text == other.text
    }
}

impl vstd::std_specs::cmp::PartialEqSpecImpl for Version {
    open spec fn obeys_eq_spec() -> bool {
        true
    }

    open spec fn eq_spec(&self, other: &Version) -> bool {
        self@.text == other@.text
    }
}

/// Strict precedence order between two version models: the numeric triple
/// compares first, and on a tie any pre-release comes before the release.
/// Build metadata never participates.
pub open spec fn version_lt(a: VersionView, b: VersionView) -> bool {
    if a.major != b.major {
        a.major < b.major
    } else if a.minor != b.minor {
        a.minor < b.minor
    } else if a.patch != b.patch {
        a.patch < b.patch
    } else {
        pre_lt(a.pre, b.pre)
    }
}

/// Two versions of equal precedence: same numeric triple and same
/// pre-release identifiers (they may still differ in build metadata).
pub open spec fn version_pe(a: VersionView, b: VersionView) -> bool {
    a.major == b.major && a.minor == b.minor && a.patch == b.patch && a.pre == b.pre
}

/// Non-strict precedence order.
pub open spec fn version_le(a: VersionView, b: VersionView) -> bool {
    version_lt(a, b) || version_pe(a, b)
}

/// The precedence order relates any two versions.
pub proof fn lemma_version_le_connected(a: VersionView, b: VersionView)
    ensures
        version_le(a, b) || version_le(b, a),
{
    lemma_pre_lt_connected(a.pre, b.pre);
}

/// Two versions at or below one another are of equal precedence: together
/// with connectivity and transitivity, the precedence order totally orders
/// versions up to precedence equality.
pub proof fn lemma_version_le_antisymmetric(a: VersionView, b: VersionView)
    requires
        version_le(a, b),
        version_le(b, a),
    ensures
        version_pe(a, b),
{
    if version_lt(a, b) && version_lt(b, a) {
        lemma_pre_lt_trans(a.pre, b.pre, a.pre);
        lemma_pre_lt_irreflexive(a.pre);
    }
}

/// The precedence order is transitive.
pub proof fn lemma_version_le_trans(a: VersionView, b: VersionView, c: VersionView)
    requires
        version_le(a, b),
        version_le(b, c),
    ensures
        version_le(a, c),
{
    if a.major == c.major && a.minor == c.minor && a.patch == c.patch {
        if pre_lt(a.pre, b.pre) && pre_lt(b.pre, c.pre) {
            lemma_pre_lt_trans(a.pre, b.pre, c.pre);
        }
    }
}

pub proof fn lemma_skip_succ<A>(s: Seq<A>, i: int)
    requires
        0 <= i < s.len(),
    ensures
        s.skip(i).drop_first() =~= s.skip(i + 1),
        s.skip(i)[0] == s[i],
        s.skip(i).len() == s.len() - i,
{
}

pub proof fn lemma_skip_eq_step<A>(a: Seq<A>, b: Seq<A>, i: int)
    requires
        0 <= i < a.len(),
        a.len() == b.len(),
        a[i] == b[i],
    ensures
        (a.skip(i) == b.skip(i)) <==> (a.skip(i + 1) == b.skip(i + 1)),
{
    lemma_skip_succ(a, i);
    lemma_skip_succ(b, i);
    if a.skip(i + 1) == b.skip(i + 1) {
        assert(a.skip(i) =~= b.skip(i)) by {
            assert(forall|k: int|
                1 <= k < a.skip(i).len() ==> a.skip(i)[k] == a[i + k] && b.skip(i)[k] == b[i + k]
                    && a.skip(i + 1)[k - 1] == a[i + k] && b.skip(i + 1)[k - 1] == b[i + k]);
        }
    }
    if a.skip(i) == b.skip(i) {
        assert(a.skip(i + 1) =~= b.skip(i + 1));
    }
}

/// Is the sequence of versions descending by precedence?
pub open spec fn sorted_desc(s: Seq<VersionView>) -> bool {
    forall|i: int, j: int| 0 <= i < j < s.len() ==> version_le(#[trigger] s[j], #[trigger] s[i])
}

/// Do all the versions in the sequence come from distinct texts?
pub open spec fn no_dup_texts(s: Seq<VersionView>) -> bool {
    forall|i: int, j: int| 0 <= i < j < s.len() ==> (#[trigger] s[i]).text != (#[trigger] s[j]).text
}

/// Compares two byte strings in ASCII sort order; -1, 0 and 1 stand for
/// less, equal and greater.
fn cmp_bytes(a: &[u8], b: &[u8]) -> (r: i8)
    ensures
        -1 <= r <= 1,
        (r == -1) == bytes_lt(a@, b@),
        (r == 1) == bytes_lt(b@, a@),
        (r == 0) == (a@ == b@),
{
    proof {
        assert(a@.skip(0) =~= a@);
        assert(b@.skip(0) =~= b@);
    }
    let alen = a.len();
    let blen = b.len();
    let mut i: usize = 0;
    while i < alen && i < blen
        invariant
            0 <= i <= alen,
            0 <= i <= blen,
            alen == a@.len(),
            blen == b@.len(),
            bytes_lt(a@, b@) == bytes_lt(a@.skip(i as int), b@.skip(i as int)),
            bytes_lt(b@, a@) == bytes_lt(b@.skip(i as int), a@.skip(i as int)),
            (a@ == b@) <==> (alen == blen && a@.skip(i as int) == b@.skip(i as int)),
        decreases alen - i,
    {
        let x = a[i];
        let y = b[i];
        proof {
            assert(a@.skip(i as int)[0] == a@[i as int]);
            assert(b@.skip(i as int)[0] == b@[i as int]);
        }
        if x < y {
            return -1;
        }
        if x > y {
            return 1;
        }
        proof {
            lemma_skip_succ(a@, i as int);
            lemma_skip_succ(b@, i as int);
            if alen == blen {
                lemma_skip_eq_step(a@, b@, i as int);
            }
        }
        i = i + 1;
    }
    proof {
        if alen == blen {
            assert(a@.skip(i as int) =~= Seq::<u8>::empty());
            assert(b@.skip(i as int) =~= Seq::<u8>::empty());
        }
    }
    if alen == blen {
        0
    } else if alen < blen {
        -1
    } else {
        1
    }
}

/// Compares two pre-release identifiers in precedence order; -1, 0 and 1
/// stand for less, equal and greater.
fn cmp_ident(a: &PreIdent, b: &PreIdent) -> (r: i8)
    ensures
        -1 <= r <= 1,
        (r == -1) == ident_lt(a@, b@),
        (r == 1) == ident_lt(b@, a@),
        (r == 0) == (a@ == b@),
{
    proof {
        lemma_ident_lt_connected(a@, b@);
        lemma_ident_lt_irreflexive(a@);
        lemma_ident_lt_irreflexive(b@);
    }
    if a.numeric && !b.numeric {
        return -1;
    }
    if !a.numeric && b.numeric {
        return 1;
    }
    if a.numeric && b.numeric {
        let alen = a.bytes.len();
        let blen = b.bytes.len();
        if alen < blen {
            return -1;
        }
        if alen > blen {
            return 1;
        }
    }
    let r = cmp_bytes(a.bytes.as_slice(), b.bytes.as_slice());
    proof {
        if a.bytes@ == b.bytes@ {
            assert(a@ =~= b@);
        }
    }
    r
}

/// Compares two pre-release tags in precedence order; the empty tag (an
/// ordinary release) is the greatest. -1, 0 and 1 stand for less,
/// precedence-equal and greater.
fn cmp_pre(a: &Vec<PreIdent>, b: &Vec<PreIdent>) -> (r: i8)
    ensures
        -1 <= r <= 1,
        (r == -1) == pre_lt(
            a@.map_values(|p: PreIdent| p@),
            b@.map_values(|p: PreIdent| p@),
        ),
        (r == 1) == pre_lt(b@.map_values(|p: PreIdent| p@), a@.map_values(|p: PreIdent| p@)),
        (r == 0) == (a@.map_values(|p: PreIdent| p@) == b@.map_values(|p: PreIdent| p@)),
    {
    let ghost va = a@.map_values(|p: PreIdent| p@);
    let ghost vb = b@.map_values(|p: PreIdent| p@);
    let alen = a.len();
    let blen = b.len();
    if alen == 0 && blen == 0 {
        proof {
            assert(va =~= vb);
        }
        return 0;
    }
    if alen == 0 {
        return 1;
    }
    if blen == 0 {
        return -1;
    }
    proof {
        assert(va.skip(0) =~= va);
        assert(vb.skip(0) =~= vb);
    }
    let mut i: usize = 0;
    while i < alen && i < blen
        invariant
            0 <= i <= alen,
            0 <= i <= blen,
            alen == a@.len(),
            blen == b@.len(),
            va == a@.map_values(|p: PreIdent| p@),
            vb == b@.map_values(|p: PreIdent| p@),
            idents_lt(va, vb) == idents_lt(va.skip(i as int), vb.skip(i as int)),
            idents_lt(vb, va) == idents_lt(vb.skip(i as int), va.skip(i as int)),
            (va == vb) <==> (alen == blen && va.skip(i as int) == vb.skip(i as int)),
        decreases alen - i,
    {
        proof {
            lemma_skip_succ(va, i as int);
            lemma_skip_succ(vb, i as int);
        }
        let c = cmp_ident(&a[i], &b[i]);
        if c == -1 {
            proof {
                lemma_ident_lt_irreflexive(va[i as int]);
            }
            return -1;
        }
        if c == 1 {
            proof {
                lemma_ident_lt_irreflexive(va[i as int]);
            }
            return 1;
        }
        proof {
            if alen == blen {
                lemma_skip_eq_step(va, vb, i as int);
            }
        }
        i = i + 1;
    }
    proof {
        if alen == blen {
            assert(va.skip(i as int) =~= Seq::<PreIdentView>::empty());
            assert(vb.skip(i as int) =~= Seq::<PreIdentView>::empty());
        }
    }
    if alen == blen {
        0
    } else if alen < blen {
        -1
    } else {
        1
    }
}

impl Version {
    /// Compares two versions in precedence order (build metadata ignored);
    /// -1, 0 and 1 stand for less, precedence-equal and greater.
    pub fn cmp_precedence(&self, other: &Version) -> (r: i8)
        ensures
            -1 <= r <= 1,
            (r == -1) == version_lt(self@, other@),
            (r == 1) == version_lt(other@, self@),
            (r == 0) == version_pe(self@, other@),
    {
        if self.major < other.major {
            return -1;
        }
        if self.major > other.major {
            return 1;
        }
        if self.minor < other.minor {
            return -1;
        }
        if self.minor > other.minor {
            return 1;
        }
        if self.patch < other.patch {
            return -1;
        }
        if self.patch > other.patch {
            return 1;
        }
        cmp_pre(&self.pre, &other.pre)
    }

    /// Is this version strictly below `other` in precedence order?
    pub fn lt(&self, other: &Version) -> (r: bool)
        ensures
            r == version_lt(self@, other@),
    {
        self.cmp_precedence(other) == -1
    }

    /// Is this version at or below `other` in precedence order?
    pub fn le(&self, other: &Version) -> (r: bool)
        ensures
            r == version_le(self@, other@),
    {
        self.cmp_precedence(other) != 1
    }
}

// ---------------------------------------------------------------------------
// Requirements
// ---------------------------------------------------------------------------
/// Does `semver::VersionReq::parse` accept this range expression?
pub uninterp spec fn req_parses(s: Seq<char>) -> bool;

/// Whether the requirement range `req` admits the version that `version`
/// parses to, as `semver::VersionReq::matches` decides it. Both arguments
/// are the original texts, which determine the result completely.
pub uninterp spec fn req_matches(req: Seq<char>, version: Seq<char>) -> bool;

/// Relies on `semver::VersionReq::parse`: whether the text is a valid
/// requirement range depends on the text alone.
#[verifier::external_body]
fn semver_req_ok(s: &str) -> (r: bool)
    ensures
        r == req_parses(s@),
{
    semver::VersionReq::parse(s).is_ok()
}

/// A parsed version-requirement range, e.g. `^1.2.0`. Only texts that the
/// range grammar accepts become `Requirement`s, so matching can always
/// re-read the range from the text.
pub struct Requirement {
    text: String,
}

impl View for Requirement {
    type V = Seq<char>;

    closed spec fn view(&self) -> Seq<char> {
        self.text@
    }
}

impl Requirement {
    /// Parses a requirement range; texts the grammar rejects yield `None`,
    /// never an error.
    pub fn parse(s: &str) -> (r: Option<Requirement>)
        ensures
            r is Some <==> req_parses(s@),
            r matches Some(q) ==> q@ == s@,
    {
        if semver_req_ok(s) {
            Some(Requirement { text: s.to_owned() })
        } else {
            None
        }
    }

    /// The text the requirement was parsed from.
    pub fn text(&self) -> (r: &String)
        ensures
            r@ == self@,
    {
        &self.text
    }

    /// Relies on `semver::VersionReq::parse` and `semver::VersionReq::matches`:
    /// whether a version satisfies a range is a function of the range's text
    /// and the version's text alone. A `Requirement` only ever holds a text
    /// that parses, so the fallback arm is unreachable.
    #[verifier::external_body]
    pub fn matches(&self, v: &Version) -> (r: bool)
        ensures
            r == req_matches(self@, v@.text),
    {
        match (semver::VersionReq::parse(&self.text), semver::Version::parse(&v.text)) {
            (Ok(req), Ok(sv)) => req.matches(&sv),
            _ => false,
        }
    }
}

} // verus!
