//! The variant engine's pure part: parsing path segments into a chain of
//! transforms under an optional whitelist, the path a variant occupies, and
//! the steps the raster engine runs to produce it.
use vstd::prelude::*;
use vstd::string::StringSliceAdditionalSpecFns;
use vstd::string::StrSliceExecFns;
use vstd::utf8::encode_utf8;
use crate::media::str_eq;

verus! {

/// A blur radius as read from a path segment: its canonical decimal text
/// and whether it is above zero.
#[derive(Debug)]
pub struct Sigma {
    pub text: String,
    pub positive: bool,
}

impl Sigma {
    pub fn new(text: String, positive: bool) -> (r: Sigma)
        ensures
            r == (Sigma { text, positive }),
    {
        Sigma { text, positive }
    }

    pub fn duplicate(&self) -> (r: Sigma)
        ensures
            r == *self,
    {
        Sigma { text: self.text.clone(), positive: self.positive }
    }
}

/// One transform of a variant chain.
#[derive(Debug)]
pub enum Op {
    /// Pass the image through.
    Identity,
    /// Fit the image into an N×N box.
    Thumbnail(usize),
    /// Gaussian blur with the given radius.
    Blur(Sigma),
}

/// The ordered transforms that a variant applies to an original.
#[derive(Debug)]
pub struct ProcessChain {
    pub ops: Vec<Op>,
}

/// One call into the raster engine.
#[derive(Debug)]
pub enum Step {
    /// Resample to exactly this size.
    Sample { width: usize, height: usize },
    /// Blur with the radius written as this text.
    Blur(String),
}

/// The raster engine's work for one variant, and whether it changes the
/// original's bytes at all.
#[derive(Debug)]
pub struct Plan {
    pub steps: Vec<Step>,
    pub changed: bool,
    pub width: usize,
    pub height: usize,
}

pub open spec fn identity_name() -> Seq<char> {
    seq!['i', 'd', 'e', 'n', 't', 'i', 't', 'y']
}

pub open spec fn thumbnail_name() -> Seq<char> {
    seq!['t', 'h', 'u', 'm', 'b', 'n', 'a', 'i', 'l']
}

pub open spec fn blur_name() -> Seq<char> {
    seq!['b', 'l', 'u', 'r']
}


pub open spec fn is_prefix(p: Seq<u8>, s: Seq<u8>) -> bool {
    p.len() <= s.len() && s.subrange(0, p.len() as int) == p
}

/// `s` with every leading copy of `p` removed.
pub open spec fn trim_all(s: Seq<u8>, p: Seq<u8>) -> Seq<u8>
    decreases s.len(),
{
    if p.len() > 0 && is_prefix(p, s) {
        trim_all(s.subrange(p.len() as int, s.len() as int), p)
    } else {
        s
    }
}

pub open spec fn is_digit(b: u8) -> bool {
    48 <= b <= 57
}

pub open spec fn all_digits(s: Seq<u8>) -> bool {
    forall|i: int| 0 <= i < s.len() ==> is_digit(#[trigger] s[i])
}

/// The value of a string of decimal digits.
pub open spec fn digits_value(s: Seq<u8>) -> nat
    decreases s.len(),
{
    if s.len() == 0 {
        0
    } else {
        digits_value(s.drop_last()) * 10 + (s.last() - 48) as nat
    }
}

/// The unsigned integer that a text denotes: an optional `+`, then one or
/// more decimal digits.
pub open spec fn number_of(s: Seq<u8>) -> Option<nat> {
    let d = if s.len() > 0 && s[0] == 43u8 {
        s.drop_first()
    } else {
        s
    };
    if d.len() > 0 && all_digits(d) {
        Some(digits_value(d))
    } else {
        None
    }
}

pub open spec fn whitelisted(whitelist: Option<Seq<String>>, name: Seq<char>) -> bool {
    match whitelist {
        None => true,
        Some(w) => has_name(w, name),
    }
}

pub open spec fn has_name(w: Seq<String>, name: Seq<char>) -> bool {
    exists|i: int| 0 <= i < w.len() && (#[trigger] w[i])@ == name
}

pub open spec fn whitelist_view(whitelist: Option<Vec<String>>) -> Option<Seq<String>> {
    match whitelist {
        None => None,
        Some(w) => Some(w@),
    }
}

/// The text after the leading copies of `blur` in a segment.
pub open spec fn blur_argument_of(seg: Seq<u8>) -> Seq<u8> {
    trim_all(seg, encode_utf8(blur_name()))
}

/// The transform that a segment names, if it parses and is allowed;
/// `sigma` is what the text after `blur` reads as a number.
pub open spec fn op_of(seg: Seq<u8>, whitelist: Option<Seq<String>>, sigma: Option<Sigma>) -> Option<
    Op,
> {
    if seg == encode_utf8(identity_name()) && whitelisted(whitelist, identity_name()) {
        Some(Op::Identity)
    } else if is_prefix(encode_utf8(thumbnail_name()), seg) && whitelisted(
        whitelist,
        thumbnail_name(),
    ) {
        match number_of(trim_all(seg, encode_utf8(thumbnail_name()))) {
            Some(n) => if 1 <= n <= usize::MAX {
                Some(Op::Thumbnail(n as usize))
            } else {
                None
            },
            None => None,
        }
    } else if is_prefix(encode_utf8(blur_name()), seg) && whitelisted(whitelist, blur_name()) {
        match sigma {
            Some(s) => Some(Op::Blur(s)),
            None => None,
        }
    } else {
        None
    }
}

/// The transforms of the segments that parse and are allowed, in order.
pub open spec fn chain_of(
    segs: Seq<String>,
    whitelist: Option<Seq<String>>,
    sigmas: Seq<Option<Sigma>>,
) -> Seq<Op>
    decreases segs.len(),
{
    if segs.len() == 0 {
        Seq::empty()
    } else {
        let rest = chain_of(segs.drop_last(), whitelist, sigmas.subrange(0, segs.len() - 1));
        match op_of(encode_utf8(segs.last()@), whitelist, sigmas[segs.len() - 1]) {
            Some(op) => rest.push(op),
            None => rest,
        }
    }
}

/// The decimal text of a number.
pub open spec fn decimal(n: nat) -> Seq<char>
    decreases n,
{
    if n < 10 {
        seq![digit_char(n)]
    } else {
        decimal(n / 10) + seq![digit_char(n % 10)]
    }
}

pub open spec fn digit_char(d: nat) -> char {
    if d == 0 { '0' } else if d == 1 { '1' } else if d == 2 { '2' } else if d == 3 { '3' }
    else if d == 4 { '4' } else if d == 5 { '5' } else if d == 6 { '6' } else if d == 7 { '7' }
    else if d == 8 { '8' } else { '9' }
}

/// `base/comp`, with no second slash where `base` ends in one.
pub open spec fn join(base: Seq<char>, comp: Seq<char>) -> Seq<char> {
    if base.len() == 0 || base.last() == '/' {
        base + comp
    } else {
        base + seq!['/'] + comp
    }
}

/// The directories that one transform adds to a variant's path.
pub open spec fn op_dirs(op: Op) -> Seq<Seq<char>> {
    match op {
        Op::Identity => Seq::empty(),
        Op::Thumbnail(n) => seq![thumbnail_name(), decimal(n as nat)],
        Op::Blur(s) => seq![blur_name(), s.text@],
    }
}

/// `base` with each transform's directories appended in order.
pub open spec fn chain_dir(base: Seq<char>, ops: Seq<Op>) -> Seq<char>
    decreases ops.len(),
{
    if ops.len() == 0 {
        base
    } else {
        join_all(chain_dir(base, ops.drop_last()), op_dirs(ops.last()))
    }
}

pub open spec fn join_all(base: Seq<char>, comps: Seq<Seq<char>>) -> Seq<char>
    decreases comps.len(),
{
    if comps.len() == 0 {
        base
    } else {
        join(join_all(base, comps.drop_last()), comps.last())
    }
}

/// The path where the variant of `filename` under the chain `ops` is kept.
pub open spec fn variant_path(base: Seq<char>, ops: Seq<Op>, filename: Seq<char>) -> Seq<char> {
    join(chain_dir(base, ops), filename)
}

/// The size that fits `w × h` into an `n × n` box, keeping its proportions.
pub open spec fn fit_box(w: nat, h: nat, n: nat) -> (nat, nat)
    recommends
        n > 0,
        w > 0,
        h > 0,
{
    if w < h {
        (w * n / h, n)
    } else {
        (n, h * n / w)
    }
}

/// The engine's state while a chain is planned: the steps so far, whether
/// anything changed, and the current size.
pub struct PlanState {
    pub steps: Seq<Step>,
    pub changed: bool,
    pub width: nat,
    pub height: nat,
}

/// What one transform does to the plan of an image (`gif`: the original is a
/// GIF, whose first frame a thumbnail always materialises).
pub open spec fn plan_op(st: PlanState, op: Op, gif: bool) -> PlanState {
    match op {
        Op::Identity => st,
        Op::Thumbnail(n) => if n > 0 && (st.width > n || st.height > n) {
            let (w, h) = fit_box(st.width, st.height, n as nat);
            PlanState {
                steps: st.steps.push(Step::Sample { width: w as usize, height: h as usize }),
                changed: true,
                width: w,
                height: h,
            }
        } else if gif {
            PlanState { changed: true, ..st }
        } else {
            st
        },
        Op::Blur(s) => if s.positive {
            PlanState { steps: st.steps.push(Step::Blur(s.text)), changed: true, ..st }
        } else {
            st
        },
    }
}

pub open spec fn plan_ops(st: PlanState, ops: Seq<Op>, gif: bool) -> PlanState
    decreases ops.len(),
{
    if ops.len() == 0 {
        st
    } else {
        plan_op(plan_ops(st, ops.drop_last(), gif), ops.last(), gif)
    }
}

pub open spec fn plan_of(ops: Seq<Op>, width: nat, height: nat, gif: bool) -> PlanState {
    plan_ops(PlanState { steps: Seq::empty(), changed: false, width, height }, ops, gif)
}

/// Whether `p` occurs in `s` at offset `at`.
fn prefix_at(s: &[u8], at: usize, p: &[u8]) -> (r: bool)
    requires
        at <= s@.len(),
    ensures
        r == is_prefix(p@, s@.subrange(at as int, s@.len() as int)),
{
    let n = s.len();
    let m = p.len();
    if m > n - at {
        return false;
    }
    let mut i: usize = 0;
    while i < m
        invariant
            i <= m,
            m == p@.len(),
            n == s@.len(),
            at + m <= n,
            forall|j: int| 0 <= j < i ==> s@[at + j] == p@[j],
        decreases m - i,
    {
        if s[at + i] != p[i] {
            assert(s@.subrange(at as int, n as int).subrange(0, m as int)[i as int] != p@[i as int]);
            return false;
        }
        i = i + 1;
    }
    assert(s@.subrange(at as int, n as int).subrange(0, m as int) =~= p@);
    true
}

/// Where the text of `s` starts once every leading copy of `p` is removed.
fn trim_start(s: &[u8], p: &[u8]) -> (start: usize)
    ensures
        start <= s@.len(),
        s@.subrange(start as int, s@.len() as int) == trim_all(s@, p@),
{
    let n = s.len();
    let mut i: usize = 0;
    assert(s@.subrange(0, n as int) =~= s@);
    if p.len() == 0 {
        return 0;
    }
    while prefix_at(s, i, p)
        invariant
            i <= n,
            n == s@.len(),
            p@.len() > 0,
            trim_all(s@, p@) == trim_all(s@.subrange(i as int, n as int), p@),
        decreases n - i,
    {
        let ghost rest = s@.subrange(i as int, n as int);
        assert(rest.subrange(p@.len() as int, rest.len() as int) =~= s@.subrange(
            i + p@.len(),
            n as int,
        ));
        i = i + p.len();
    }
    i
}

proof fn lemma_digits_grow(s: Seq<u8>, j: int)
    requires
        0 <= j <= s.len(),
    ensures
        digits_value(s.subrange(0, j)) <= digits_value(s),
    decreases s.len() - j,
{
    if j < s.len() {
        lemma_digits_grow(s, j + 1);
        assert(s.subrange(0, j + 1).drop_last() =~= s.subrange(0, j));
    } else {
        assert(s.subrange(0, j) =~= s);
    }
}

/// Reads the number that `s[start..]` denotes, if it fits in `usize`.
fn parse_number(s: &[u8], start: usize) -> (r: Option<usize>)
    requires
        start <= s@.len(),
    ensures
        r == (match number_of(s@.subrange(start as int, s@.len() as int)) {
            Some(v) => if v <= usize::MAX {
                Some(v as usize)
            } else {
                None
            },
            None => None,
        }),
{
    let n = s.len();
    let ghost t = s@.subrange(start as int, n as int);
    let mut i = start;
    if i < n && s[i] == 43u8 {
        i = i + 1;
    }
    let ghost d = s@.subrange(i as int, n as int);
    assert(d =~= (if t.len() > 0 && t[0] == 43u8 { t.drop_first() } else { t }));
    if i == n {
        assert(d.len() == 0);
        return None;
    }
    let mut value: usize = 0;
    let first = i;
    while i < n
        invariant
            first <= i <= n,
            n == s@.len(),
            first < n,
            d == s@.subrange(first as int, n as int),
            t == s@.subrange(start as int, n as int),
            d == (if t.len() > 0 && t[0] == 43u8 { t.drop_first() } else { t }),
            forall|j: int| first <= j < i ==> is_digit(#[trigger] s@[j]),
            value as nat == digits_value(s@.subrange(first as int, i as int)),
        decreases n - i,
    {
        let b = s[i];
        if !(48u8 <= b && b <= 57u8) {
            assert(!is_digit(d[i - first]));
            assert(!all_digits(d));
            return None;
        }
        let digit = (b - 48u8) as usize;
        assert(s@.subrange(first as int, i + 1).drop_last() =~= s@.subrange(first as int, i as int));
        if value > (usize::MAX - digit) / 10 {
            proof {
                assert(value * 10 + digit > usize::MAX) by (nonlinear_arith)
                    requires
                        value > (usize::MAX - digit) / 10,
                        digit <= 9,
                ;
                assert(forall|j: int| 0 <= j < d.len() ==> is_digit(#[trigger] d[j]) || !all_digits(d));
                lemma_digits_grow(d, i + 1 - first);
                assert(d.subrange(0, i + 1 - first) =~= s@.subrange(first as int, i + 1));
            }
            return None;
        }
        value = value * 10 + digit;
        i = i + 1;
    }
    assert(s@.subrange(first as int, n as int) =~= d);
    assert(all_digits(d));
    Some(value)
}

/// Whether a transform named `name` may run.
pub fn is_whitelisted(whitelist: &Option<Vec<String>>, name: &str) -> (r: bool)
    ensures
        r == whitelisted(whitelist_view(*whitelist), name@),
{
    match whitelist {
        None => true,
        Some(w) => {
            assert(whitelist_view(*whitelist) == Some(w@));
            let mut i: usize = 0;
            while i < w.len()
                invariant
                    i <= w@.len(),
                    whitelist_view(*whitelist) == Some(w@),
                    forall|j: int| 0 <= j < i ==> (#[trigger] w@[j])@ != name@,
                decreases w@.len() - i,
            {
                if str_eq(w[i].as_str(), name) {
                    assert(w@[i as int]@ == name@);
                    assert(has_name(w@, name@));
                    return true;
                }
                i = i + 1;
            }
            false
        },
    }
}

/// `s[start..]` as a new vector.
fn copy_from(s: &[u8], start: usize) -> (r: Vec<u8>)
    requires
        start <= s@.len(),
    ensures
        r@ == s@.subrange(start as int, s@.len() as int),
{
    let mut r: Vec<u8> = Vec::new();
    let mut i = start;
    while i < s.len()
        invariant
            start <= i <= s@.len(),
            r@ == s@.subrange(start as int, i as int),
        decreases s@.len() - i,
    {
        r.push(s[i]);
        i = i + 1;
        assert(r@ =~= s@.subrange(start as int, i as int));
    }
    r
}

/// For a segment that starts with `blur`, the bytes after its leading copies
/// of `blur`: the text to be read as the blur radius.
pub fn blur_argument(seg: &str) -> (r: Option<Vec<u8>>)
    ensures
        is_prefix(encode_utf8(blur_name()), seg.spec_bytes()) ==> (r matches Some(v) && v@
            == blur_argument_of(seg.spec_bytes())),
        !is_prefix(encode_utf8(blur_name()), seg.spec_bytes()) ==> r is None,
{
    let name = "blur";
    proof {
        reveal_strlit("blur");
        assert(name@ =~= blur_name());
    }
    let b = seg.as_bytes();
    if !prefix_at(b, 0, name.as_bytes()) {
        assert(b@.subrange(0, b@.len() as int) =~= b@);
        return None;
    }
    assert(b@.subrange(0, b@.len() as int) =~= b@);
    let start = trim_start(b, name.as_bytes());
    Some(copy_from(b, start))
}

/// The transform that one segment names, if it parses and the whitelist
/// allows it. `sigma` is the reading of the segment's `blur_argument` as a
/// number, where it has one.
pub fn parse_op(seg: &str, whitelist: &Option<Vec<String>>, sigma: Option<Sigma>) -> (r: Option<
    Op,
>)
    ensures
        r == op_of(seg.spec_bytes(), whitelist_view(*whitelist), sigma),
{
    let identity = "identity";
    let thumbnail = "thumbnail";
    let blur = "blur";
    proof {
        reveal_strlit("identity");
        reveal_strlit("thumbnail");
        reveal_strlit("blur");
        assert(identity@ =~= identity_name());
        assert(thumbnail@ =~= thumbnail_name());
        assert(blur@ =~= blur_name());
    }
    let b = seg.as_bytes();
    assert(b@.subrange(0, b@.len() as int) =~= b@);
    let is_identity = prefix_at(b, 0, identity.as_bytes()) && b.len() == identity.as_bytes().len();
    assert(is_identity == (b@ == encode_utf8(identity_name()))) by {
        if b@.len() == identity.spec_bytes().len() {
            assert(b@.subrange(0, b@.len() as int) =~= b@);
        }
    }
    if is_identity && is_whitelisted(whitelist, identity) {
        return Some(Op::Identity);
    }
    if prefix_at(b, 0, thumbnail.as_bytes()) && is_whitelisted(whitelist, thumbnail) {
        let start = trim_start(b, thumbnail.as_bytes());
        return match parse_number(b, start) {
            Some(n) => if n >= 1 {
                Some(Op::Thumbnail(n))
            } else {
                None
            },
            None => None,
        };
    }
    if prefix_at(b, 0, blur.as_bytes()) && is_whitelisted(whitelist, blur) {
        return match sigma {
            Some(s) => Some(Op::Blur(s)),
            None => None,
        };
    }
    None
}

fn copy_sigma(s: &Option<Sigma>) -> (r: Option<Sigma>)
    ensures
        r == *s,
{
    match s {
        Some(x) => Some(x.duplicate()),
        None => None,
    }
}

/// Builds the chain of a variant from the segments of its URL path, in
/// order, dropping each segment that does not parse or is not allowed.
/// `sigmas[i]` is the radius that `args[i]` gives a blur, where it has one.
pub fn build_chain(
    args: &Vec<String>,
    whitelist: &Option<Vec<String>>,
    sigmas: &Vec<Option<Sigma>>,
) -> (chain: ProcessChain)
    requires
        sigmas@.len() == args@.len(),
    ensures
        chain.ops@ == chain_of(args@, whitelist_view(*whitelist), sigmas@),
{
    let mut ops: Vec<Op> = Vec::new();
    let mut i: usize = 0;
    assert(args@.subrange(0, 0).len() == 0);
    while i < args.len()
        invariant
            i <= args@.len(),
            sigmas@.len() == args@.len(),
            ops@ == chain_of(
                args@.subrange(0, i as int),
                whitelist_view(*whitelist),
                sigmas@.subrange(0, i as int),
            ),
        decreases args@.len() - i,
    {
        let op = parse_op(args[i].as_str(), whitelist, copy_sigma(&sigmas[i]));
        let ghost a = args@.subrange(0, i + 1);
        assert(a.drop_last() =~= args@.subrange(0, i as int));
        assert(sigmas@.subrange(0, i + 1).subrange(0, i as int) =~= sigmas@.subrange(0, i as int));
        match op {
            Some(o) => ops.push(o),
            None => {},
        }
        i = i + 1;
    }
    assert(args@.subrange(0, args@.len() as int) =~= args@);
    assert(sigmas@.subrange(0, args@.len() as int) =~= sigmas@);
    ProcessChain { ops }
}

fn digit_text(d: usize) -> (r: &'static str)
    requires
        d < 10,
    ensures
        r@ == seq![digit_char(d as nat)],
{
    proof {
        reveal_strlit("0");
        reveal_strlit("1");
        reveal_strlit("2");
        reveal_strlit("3");
        reveal_strlit("4");
        reveal_strlit("5");
        reveal_strlit("6");
        reveal_strlit("7");
        reveal_strlit("8");
        reveal_strlit("9");
    }
    let r = if d == 0 { "0" } else if d == 1 { "1" } else if d == 2 { "2" } else if d == 3 { "3" }
    else if d == 4 { "4" } else if d == 5 { "5" } else if d == 6 { "6" } else if d == 7 { "7" }
    else if d == 8 { "8" } else { "9" };
    assert(r@ =~= seq![digit_char(d as nat)]);
    r
}

/// The decimal text of a number.
pub fn decimal_text(n: u64) -> (r: String)
    ensures
        r@ == decimal(n as nat),
    decreases n,
{
    if n < 10 {
        String::from_str(digit_text(n as usize))
    } else {
        let mut s = decimal_text(n / 10);
        s.append(digit_text((n % 10) as usize));
        s
    }
}

/// Appends `comp` to the path `base` as one more component.
pub fn push_component(base: &mut String, comp: &str)
    ensures
        final(base)@ == join(old(base)@, comp@),
{
    let len = base.as_str().unicode_len();
    let needs_slash = len > 0 && base.as_str().get_char(len - 1) != '/';
    proof {
        reveal_strlit("/");
    }
    if needs_slash {
        base.append("/");
        assert("/"@ =~= seq!['/']);
    }
    base.append(comp);
}

/// Appends the directories that one transform adds to a variant's path.
fn push_op_dirs(path: &mut String, op: &Op)
    ensures
        final(path)@ == join_all(old(path)@, op_dirs(*op)),
{
    let ghost start = path@;
    match op {
        Op::Identity => {
            assert(op_dirs(*op).len() == 0);
            assert(join_all(path@, op_dirs(*op)) == path@);
            assert(path@ == old(path)@);
        },
        Op::Thumbnail(n) => {
            let name = "thumbnail";
            proof {
                reveal_strlit("thumbnail");
                assert(name@ =~= thumbnail_name());
            }
            push_component(path, name);
            let digits = decimal_text(*n as u64);
            push_component(path, digits.as_str());
            let ghost comps = op_dirs(*op);
            assert(comps.drop_last() =~= seq![thumbnail_name()]);
            assert(comps.drop_last().drop_last() =~= Seq::<Seq<char>>::empty());
            assert(join_all(start, comps.drop_last().drop_last()) == start);
            assert(join_all(start, comps.drop_last()) == join(start, thumbnail_name()));
            assert(path@ == join_all(start, op_dirs(*op)));
        },
        Op::Blur(s) => {
            let name = "blur";
            proof {
                reveal_strlit("blur");
                assert(name@ =~= blur_name());
            }
            push_component(path, name);
            push_component(path, s.text.as_str());
            let ghost comps = op_dirs(*op);
            assert(comps.drop_last() =~= seq![blur_name()]);
            assert(comps.drop_last().drop_last() =~= Seq::<Seq<char>>::empty());
            assert(join_all(start, comps.drop_last().drop_last()) == start);
            assert(join_all(start, comps.drop_last()) == join(start, blur_name()));
            assert(path@ == join_all(start, op_dirs(*op)));
        },
    }
}

/// The path of the variant of `filename` under `chain`: the image directory,
/// then each transform's directories in order, then the filename.
pub fn build_path(base: &str, chain: &ProcessChain, filename: &str) -> (r: String)
    ensures
        r@ == variant_path(base@, chain.ops@, filename@),
{
    let mut path = String::from_str(base);
    let mut i: usize = 0;
    let ghost ops = chain.ops@;
    while i < chain.ops.len()
        invariant
            i <= ops.len(),
            ops == chain.ops@,
            path@ == chain_dir(base@, ops.subrange(0, i as int)),
        decreases ops.len() - i,
    {
        push_op_dirs(&mut path, &chain.ops[i]);
        assert(ops.subrange(0, i + 1).drop_last() =~= ops.subrange(0, i as int));
        i = i + 1;
    }
    assert(ops.subrange(0, ops.len() as int) =~= ops);
    push_component(&mut path, filename);
    path
}

/// The size that fits `w × h` into an `n × n` box.
pub fn thumbnail_size(w: usize, h: usize, n: usize) -> (r: (usize, usize))
    requires
        n > 0,
        w > n || h > n,
    ensures
        r.0 as nat == fit_box(w as nat, h as nat, n as nat).0,
        r.1 as nat == fit_box(w as nat, h as nat, n as nat).1,
        r.0 <= n,
        r.1 <= n,
{
    assert((w as int) * (n as int) <= u128::MAX && (h as int) * (n as int) <= u128::MAX)
        by (nonlinear_arith)
        requires
            w <= usize::MAX,
            h <= usize::MAX,
            n <= usize::MAX,
            usize::MAX <= u64::MAX,
    ;
    if w < h {
        let x = (w as u128) * (n as u128) / (h as u128);
        assert(x <= n) by (nonlinear_arith)
            requires
                x == (w as int) * (n as int) / (h as int),
                w < h,
                0 < n,
        {
            assert((w as int) * (n as int) <= (h as int) * (n as int));
        }
        (x as usize, n)
    } else {
        let y = (h as u128) * (n as u128) / (w as u128);
        assert(y <= n) by (nonlinear_arith)
            requires
                y == (h as int) * (n as int) / (w as int),
                h <= w,
                0 < w,
                0 < n,
        {
            assert((h as int) * (n as int) <= (w as int) * (n as int));
        }
        (n, y as usize)
    }
}

/// Plans the raster engine's work for a chain over an original of size
/// `width × height` (`gif`: the original is a GIF): the steps in order,
/// whether the bytes change, and the size that results.
pub fn plan_chain(chain: &ProcessChain, width: usize, height: usize, gif: bool) -> (r: Plan)
    ensures
        r.steps@ == plan_of(chain.ops@, width as nat, height as nat, gif).steps,
        r.changed == plan_of(chain.ops@, width as nat, height as nat, gif).changed,
        r.width as nat == plan_of(chain.ops@, width as nat, height as nat, gif).width,
        r.height as nat == plan_of(chain.ops@, width as nat, height as nat, gif).height,
{
    let ghost ops = chain.ops@;
    let ghost init = PlanState { steps: Seq::empty(), changed: false, width: width as nat, height: height as nat };
    let mut steps: Vec<Step> = Vec::new();
    let mut changed = false;
    let mut w = width;
    let mut h = height;
    let mut i: usize = 0;
    while i < chain.ops.len()
        invariant
            i <= ops.len(),
            ops == chain.ops@,
            plan_ops(init, ops.subrange(0, i as int), gif) == (PlanState {
                steps: steps@,
                changed,
                width: w as nat,
                height: h as nat,
            }),
        decreases ops.len() - i,
    {
        assert(ops.subrange(0, i + 1).drop_last() =~= ops.subrange(0, i as int));
        match &chain.ops[i] {
            Op::Identity => {},
            Op::Thumbnail(n) => {
                if *n > 0 && (w > *n || h > *n) {
                    let (nw, nh) = thumbnail_size(w, h, *n);
                    steps.push(Step::Sample { width: nw, height: nh });
                    changed = true;
                    w = nw;
                    h = nh;
                } else if gif {
                    changed = true;
                }
            },
            Op::Blur(s) => {
                if s.positive {
                    steps.push(Step::Blur(s.text.clone()));
                    changed = true;
                }
            },
        }
        i = i + 1;
    }
    assert(ops.subrange(0, ops.len() as int) =~= ops);
    Plan { steps, changed, width: w, height: h }
}

/// The pieces of a text between its `/`s, in order; a text without `/` is
/// one piece.
pub open spec fn split_slashes(s: Seq<char>) -> Seq<Seq<char>>
    decreases s.len(),
{
    if s.len() == 0 {
        seq![Seq::empty()]
    } else {
        let rest = split_slashes(s.drop_last());
        if s.last() == '/' {
            rest.push(Seq::empty())
        } else {
            rest.update(rest.len() - 1, rest.last().push(s.last()))
        }
    }
}

proof fn lemma_split_nonempty(s: Seq<char>)
    ensures
        split_slashes(s).len() >= 1,
    decreases s.len(),
{
    if s.len() > 0 {
        lemma_split_nonempty(s.drop_last());
    }
}

pub open spec fn texts(v: Seq<String>) -> Seq<Seq<char>> {
    v.map_values(|p: String| p@)
}

/// Splits the tail of a request path, `seg/seg/.../alias`, into the
/// transform segments and the alias, which is the last piece.
pub fn split_request_path(path: &str) -> (r: (Vec<String>, String))
    ensures
        texts(r.0@) == split_slashes(path@).drop_last(),
        r.1@ == split_slashes(path@).last(),
{
    let n = path.unicode_len();
    let mut pieces: Vec<String> = Vec::new();
    let mut start: usize = 0;
    let mut i: usize = 0;
    assert(path@.subrange(0, 0) =~= Seq::<char>::empty());
    assert(texts(pieces@).push(path@.subrange(0, 0)) =~= split_slashes(path@.subrange(0, 0)));
    while i < n
        invariant
            start <= i <= n,
            n == path@.len(),
            texts(pieces@).push(path@.subrange(start as int, i as int)) == split_slashes(
                path@.subrange(0, i as int),
            ),
        decreases n - i,
    {
        let ghost before = split_slashes(path@.subrange(0, i as int));
        let ghost cur = path@.subrange(start as int, i as int);
        assert(path@.subrange(0, i + 1).drop_last() =~= path@.subrange(0, i as int));
        proof {
            lemma_split_nonempty(path@.subrange(0, i as int));
        }
        if path.get_char(i) == '/' {
            let piece = path.substring_char(start, i);
            let ghost old_pieces = pieces@;
            pieces.push(String::from_str(piece));
            start = i + 1;
            assert(texts(pieces@) =~= texts(old_pieces).push(cur));
            assert(texts(pieces@) == before);
            assert(path@.subrange(start as int, i + 1) =~= Seq::<char>::empty());
            assert(texts(pieces@).push(path@.subrange(start as int, i + 1)) =~= before.push(Seq::empty()));
        } else {
            assert(path@.subrange(start as int, i + 1) =~= cur.push(path@[i as int]));
            assert(texts(pieces@).push(path@.subrange(start as int, i + 1)) =~= before.update(
                before.len() - 1,
                before.last().push(path@[i as int]),
            ));
        }
        i = i + 1;
    }
    assert(path@.subrange(0, n as int) =~= path@);
    let alias = String::from_str(path.substring_char(start, n));
    assert(texts(pieces@) =~= split_slashes(path@).drop_last());
    (pieces, alias)
}

} // verus!
