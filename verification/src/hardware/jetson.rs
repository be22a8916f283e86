use vstd::prelude::*;

use crate::text::{
    before_char, before_char_chars, chars_of, contains, contains_chars, decimal, find, find_chars,
    find_char_first, find_char_from, lines, opt_str_view, opt_view, parse_u32, parse_u32_chars,
    push_chars, push_decimal, push_str, slice_of, split_chars, split_char, split_lines,
    split_words, starts_with, starts_with_chars, string_of, trim, trim_char, trim_char_chars,
    trim_chars, views, words,
};

verus! {

/// What the monitor knows of the board.
#[derive(Debug, Clone, PartialEq, Eq)]
pub struct BoardInfo {
    pub model: String,
    pub board_type: JetsonModel,
    pub serial: String,
    pub l4t_version: String,
    pub jetpack_version: String,
    pub cuda_version: String,
    pub kernel_version: String,
    pub hostname: String,
    /// Seconds since boot.
    pub uptime: u64,
}

/// The family of a board.
#[derive(Debug, Clone, PartialEq, Eq)]
pub enum JetsonModel {
    Unknown,
    AGXOrin,
    OrinNX,
    OrinNano,
    Xavier,
    XavierNX,
    Nano,
    TX2,
    Other(String),
}

impl Default for JetsonModel {
    fn default() -> (r: JetsonModel)
        ensures
            r == JetsonModel::Unknown,
    {
        JetsonModel::Unknown
    }
}

impl Default for BoardInfo {
    fn default() -> (r: BoardInfo)
        ensures
            r.model@.len() == 0,
            r.board_type == JetsonModel::Unknown,
            r.serial@.len() == 0,
            r.l4t_version@.len() == 0,
            r.jetpack_version@.len() == 0,
            r.cuda_version@.len() == 0,
            r.kernel_version@.len() == 0,
            r.hostname@.len() == 0,
            r.uptime == 0,
    {
        BoardInfo {
            model: String::new(),
            board_type: JetsonModel::default(),
            serial: String::new(),
            l4t_version: String::new(),
            jetpack_version: String::new(),
            cuda_version: String::new(),
            kernel_version: String::new(),
            hostname: String::new(),
            uptime: 0,
        }
    }
}

/// How a board family is written.
pub open spec fn model_text(m: JetsonModel) -> Seq<char> {
    match m {
        JetsonModel::Unknown => "Unknown"@,
        JetsonModel::AGXOrin => "AGX Orin"@,
        JetsonModel::OrinNX => "Orin NX"@,
        JetsonModel::OrinNano => "Orin Nano"@,
        JetsonModel::Xavier => "Xavier"@,
        JetsonModel::XavierNX => "Xavier NX"@,
        JetsonModel::Nano => "Nano"@,
        JetsonModel::TX2 => "TX2"@,
        JetsonModel::Other(s) => s@,
    }
}

impl JetsonModel {
    /// How the family is written (`Other` holds its own text).
    pub fn to_text(&self) -> (r: String)
        ensures
            r@ == model_text(*self),
    {
        match self {
            JetsonModel::Unknown => String::from_str("Unknown"),
            JetsonModel::AGXOrin => String::from_str("AGX Orin"),
            JetsonModel::OrinNX => String::from_str("Orin NX"),
            JetsonModel::OrinNano => String::from_str("Orin Nano"),
            JetsonModel::Xavier => String::from_str("Xavier"),
            JetsonModel::XavierNX => String::from_str("Xavier NX"),
            JetsonModel::Nano => String::from_str("Nano"),
            JetsonModel::TX2 => String::from_str("TX2"),
            JetsonModel::Other(s) => s.clone(),
        }
    }
}

/// The family that a model string names, by the first of these it contains:
/// "AGX Orin" or "agx-orin", "Orin NX" or "orin-nx", "Orin Nano" or
/// "orin-nano", "Xavier NX", "Xavier", "Nano", "TX2"; else the string itself.
pub open spec fn model_matches(m: JetsonModel, s: Seq<char>) -> bool {
    if contains(s, "AGX Orin"@) || contains(s, "agx-orin"@) {
        m == JetsonModel::AGXOrin
    } else if contains(s, "Orin NX"@) || contains(s, "orin-nx"@) {
        m == JetsonModel::OrinNX
    } else if contains(s, "Orin Nano"@) || contains(s, "orin-nano"@) {
        m == JetsonModel::OrinNano
    } else if contains(s, "Xavier NX"@) {
        m == JetsonModel::XavierNX
    } else if contains(s, "Xavier"@) {
        m == JetsonModel::Xavier
    } else if contains(s, "Nano"@) {
        m == JetsonModel::Nano
    } else if contains(s, "TX2"@) {
        m == JetsonModel::TX2
    } else {
        m matches JetsonModel::Other(x) && x@ == s
    }
}

/// A named family is a board family other than `Unknown` and `Other`.
pub open spec fn is_named_family(m: JetsonModel) -> bool {
    !(m is Unknown) && !(m is Other)
}

proof fn lemma_contains_self(t: Seq<char>)
    ensures
        contains(t, t),
{
    assert(t.subrange(0, t.len() as int) =~= t);
}

proof fn lemma_no_match_at(s: Seq<char>, p: Seq<char>, k: int, j: int)
    requires
        0 <= k,
        0 <= j < p.len(),
        k + p.len() <= s.len(),
        s[k + j] != p[j],
    ensures
        !crate::text::matches_at(s, p, k),
{
    assert(s.subrange(k, k + p.len())[j] == s[k + j]);
}

proof fn lemma_absent_from(s: Seq<char>, p: Seq<char>, i: int)
    requires
        0 <= i,
        forall|k: int|
            i <= k && k + p.len() <= s.len() ==> !#[trigger] crate::text::matches_at(s, p, k),
    ensures
        crate::text::find_from(s, p, i) is None,
    decreases s.len() + 1 - i,
{
    if i + p.len() <= s.len() {
        lemma_absent_from(s, p, i + 1);
    }
}

/// Reading back the text of a named family gives that family. (`Unknown`
/// reads back as `Other("Unknown")`.)
pub proof fn lemma_model_text_reads_back(m: JetsonModel)
    requires
        is_named_family(m),
    ensures
        model_matches(m, model_text(m)),
{
    reveal_strlit("AGX Orin");
    reveal_strlit("agx-orin");
    reveal_strlit("Orin NX");
    reveal_strlit("orin-nx");
    reveal_strlit("Orin Nano");
    reveal_strlit("orin-nano");
    reveal_strlit("Xavier NX");
    reveal_strlit("Xavier");
    reveal_strlit("Nano");
    reveal_strlit("TX2");
    let t = model_text(m);
    lemma_contains_self(t);
    // Each family's text holds none of the keywords tested before its own:
    // a keyword longer than the text cannot occur, and at each place where a
    // shorter one could start, one character differs.
    match m {
        JetsonModel::AGXOrin => {},
        JetsonModel::OrinNX => {
            lemma_absent_from(t, "AGX Orin"@, 0);
            lemma_absent_from(t, "agx-orin"@, 0);
        },
        JetsonModel::OrinNano => {
            lemma_no_match_at(t, "AGX Orin"@, 0, 0);
            lemma_no_match_at(t, "AGX Orin"@, 1, 0);
            lemma_absent_from(t, "AGX Orin"@, 0);
            lemma_no_match_at(t, "agx-orin"@, 0, 0);
            lemma_no_match_at(t, "agx-orin"@, 1, 0);
            lemma_absent_from(t, "agx-orin"@, 0);
            lemma_no_match_at(t, "Orin NX"@, 0, 6);
            lemma_no_match_at(t, "Orin NX"@, 1, 0);
            lemma_no_match_at(t, "Orin NX"@, 2, 0);
            lemma_absent_from(t, "Orin NX"@, 0);
            lemma_no_match_at(t, "orin-nx"@, 0, 0);
            lemma_no_match_at(t, "orin-nx"@, 1, 0);
            lemma_no_match_at(t, "orin-nx"@, 2, 0);
            lemma_absent_from(t, "orin-nx"@, 0);
        },
        JetsonModel::XavierNX => {
            lemma_no_match_at(t, "AGX Orin"@, 0, 0);
            lemma_no_match_at(t, "AGX Orin"@, 1, 0);
            lemma_absent_from(t, "AGX Orin"@, 0);
            lemma_no_match_at(t, "agx-orin"@, 0, 0);
            lemma_no_match_at(t, "agx-orin"@, 1, 1);
            lemma_absent_from(t, "agx-orin"@, 0);
            lemma_no_match_at(t, "Orin NX"@, 0, 0);
            lemma_no_match_at(t, "Orin NX"@, 1, 0);
            lemma_no_match_at(t, "Orin NX"@, 2, 0);
            lemma_absent_from(t, "Orin NX"@, 0);
            lemma_no_match_at(t, "orin-nx"@, 0, 0);
            lemma_no_match_at(t, "orin-nx"@, 1, 0);
            lemma_no_match_at(t, "orin-nx"@, 2, 0);
            lemma_absent_from(t, "orin-nx"@, 0);
            lemma_no_match_at(t, "Orin Nano"@, 0, 0);
            lemma_absent_from(t, "Orin Nano"@, 0);
            lemma_no_match_at(t, "orin-nano"@, 0, 0);
            lemma_absent_from(t, "orin-nano"@, 0);
        },
        JetsonModel::Xavier => {
            lemma_absent_from(t, "AGX Orin"@, 0);
            lemma_absent_from(t, "agx-orin"@, 0);
            lemma_absent_from(t, "Orin NX"@, 0);
            lemma_absent_from(t, "orin-nx"@, 0);
            lemma_absent_from(t, "Orin Nano"@, 0);
            lemma_absent_from(t, "orin-nano"@, 0);
            lemma_absent_from(t, "Xavier NX"@, 0);
        },
        JetsonModel::Nano => {
            lemma_absent_from(t, "AGX Orin"@, 0);
            lemma_absent_from(t, "agx-orin"@, 0);
            lemma_absent_from(t, "Orin NX"@, 0);
            lemma_absent_from(t, "orin-nx"@, 0);
            lemma_absent_from(t, "Orin Nano"@, 0);
            lemma_absent_from(t, "orin-nano"@, 0);
            lemma_absent_from(t, "Xavier NX"@, 0);
            lemma_absent_from(t, "Xavier"@, 0);
        },
        JetsonModel::TX2 => {
            lemma_absent_from(t, "AGX Orin"@, 0);
            lemma_absent_from(t, "agx-orin"@, 0);
            lemma_absent_from(t, "Orin NX"@, 0);
            lemma_absent_from(t, "orin-nx"@, 0);
            lemma_absent_from(t, "Orin Nano"@, 0);
            lemma_absent_from(t, "orin-nano"@, 0);
            lemma_absent_from(t, "Xavier NX"@, 0);
            lemma_absent_from(t, "Xavier"@, 0);
            lemma_absent_from(t, "Nano"@, 0);
        },
        _ => {},
    }
}

/// The family that a model string names (see `model_matches`).
pub fn parse_model(model_str: &str) -> (m: JetsonModel)
    ensures
        model_matches(m, model_str@),
{
    let s = chars_of(model_str);
    if contains_chars(&s, "AGX Orin") || contains_chars(&s, "agx-orin") {
        JetsonModel::AGXOrin
    } else if contains_chars(&s, "Orin NX") || contains_chars(&s, "orin-nx") {
        JetsonModel::OrinNX
    } else if contains_chars(&s, "Orin Nano") || contains_chars(&s, "orin-nano") {
        JetsonModel::OrinNano
    } else if contains_chars(&s, "Xavier NX") {
        JetsonModel::XavierNX
    } else if contains_chars(&s, "Xavier") {
        JetsonModel::Xavier
    } else if contains_chars(&s, "Nano") {
        JetsonModel::Nano
    } else if contains_chars(&s, "TX2") {
        JetsonModel::TX2
    } else {
        JetsonModel::Other(String::from_str(model_str))
    }
}

/// The first word of a text, or empty.
pub open spec fn first_word(s: Seq<char>) -> Seq<char> {
    if words(s).len() > 0 {
        words(s)[0]
    } else {
        seq![]
    }
}

fn first_word_exec(v: &Vec<char>) -> (r: Vec<char>)
    ensures
        r@ == first_word(v@),
{
    let w = split_words(v);
    proof {
        assert(views(w@).len() == w@.len());
    }
    if w.len() > 0 {
        proof {
            assert(views(w@)[0] == w@[0]@);
        }
        slice_of(&w[0], 0, w[0].len())
    } else {
        Vec::new()
    }
}

/// What one line of `/etc/nv_tegra_release` sets of the release major
/// number and the revision: a trimmed line that starts with '#' and holds
/// " R" sets the major number to the first word after it; a line that holds
/// "REVISION:" sets the revision to what follows, up to the first ','.
pub open spec fn tegra_step(st: (Seq<char>, Seq<char>), line: Seq<char>) -> (Seq<char>, Seq<char>) {
    let t = trim(line);
    let major = if starts_with(t, "#"@) && find(t, " R"@) is Some {
        first_word(t.skip(find(t, " R"@).unwrap() + 2))
    } else {
        st.0
    };
    let revision = match find(t, "REVISION:"@) {
        Some(p) => trim(before_char(trim(t.skip(p + 9)), ',')),
        None => st.1,
    };
    (major, revision)
}

pub open spec fn tegra_fold(ls: Seq<Seq<char>>) -> (Seq<char>, Seq<char>)
    decreases ls.len(),
{
    if ls.len() == 0 {
        (seq![], seq![])
    } else {
        tegra_step(tegra_fold(ls.drop_last()), ls.last())
    }
}

/// The release ("major.revision") that `/etc/nv_tegra_release` gives, when
/// both parts are found.
pub open spec fn tegra_release(content: Seq<char>) -> Option<Seq<char>> {
    let (major, revision) = tegra_fold(lines(content));
    if major.len() > 0 && revision.len() > 0 {
        Some(major + "."@ + revision)
    } else {
        None
    }
}

/// Reads `/etc/nv_tegra_release` (see `tegra_release`).
pub fn parse_nv_tegra_release(content: &str) -> (r: Option<String>)
    ensures
        opt_view(r) == tegra_release(content@),
{
    let ls = split_lines(&chars_of(content));
    let hash = chars_of("#");
    let r_pat = chars_of(" R");
    let rev_pat = chars_of("REVISION:");
    proof {
        reveal_strlit(" R");
        reveal_strlit("REVISION:");
    }
    let ghost all = lines(content@);
    let mut major: Vec<char> = Vec::new();
    let mut revision: Vec<char> = Vec::new();
    let mut i: usize = 0;
    proof {
        assert(views(ls@).len() == ls@.len());
        assert(all.take(0) =~= seq![]);
    }
    while i < ls.len()
        invariant
            i <= ls.len(),
            views(ls@) == all,
            all == lines(content@),
            hash@ == "#"@,
            r_pat@ == " R"@,
            r_pat@.len() == 2,
            rev_pat@ == "REVISION:"@,
            rev_pat@.len() == 9,
            (major@, revision@) == tegra_fold(all.take(i as int)),
        decreases ls.len() - i,
    {
        proof {
            assert(all.take(i + 1).drop_last() =~= all.take(i as int));
            assert(all.take(i + 1).last() == ls@[i as int]@);
        }
        let t = trim_chars(&ls[i]);
        let tl = t.len();
        if starts_with_chars(&t, &hash) {
            if let Some(p) = find_chars(&t, &r_pat) {
                proof {
                    crate::text::lemma_find_from_range(t@, r_pat@, 0);
                }
                let after = slice_of(&t, p + 2, tl);
                assert(after@ =~= t@.skip(p + 2));
                major = first_word_exec(&after);
            }
        }
        if let Some(p) = find_chars(&t, &rev_pat) {
            proof {
                crate::text::lemma_find_from_range(t@, rev_pat@, 0);
            }
            let after = slice_of(&t, p + 9, tl);
            assert(after@ =~= t@.skip(p + 9));
            let a = trim_chars(&after);
            let b = before_char_chars(&a, ',');
            revision = trim_chars(&b);
        }
        i = i + 1;
    }
    proof {
        assert(all.take(i as int) =~= all);
    }
    if major.len() > 0 && revision.len() > 0 {
        let mut out: Vec<char> = Vec::new();
        push_chars(&mut out, &major);
        push_str(&mut out, ".");
        push_chars(&mut out, &revision);
        proof {
            assert(out@ =~= major@ + "."@ + revision@);
        }
        Some(string_of(out.as_slice()))
    } else {
        None
    }
}

/// The version that `dpkg-query -W nvidia-l4t-core` prints: the second word
/// of its first line, up to the first '-', when not empty.
pub open spec fn dpkg_l4t_version(text: Seq<char>) -> Option<Seq<char>> {
    let ls = lines(text);
    if ls.len() == 0 {
        None
    } else {
        let w = words(ls[0]);
        if w.len() < 2 {
            None
        } else {
            let v = trim(before_char(w[1], '-'));
            if v.len() > 0 {
                Some(v)
            } else {
                None
            }
        }
    }
}

/// Reads the output of `dpkg-query -W nvidia-l4t-core` (see
/// `dpkg_l4t_version`).
pub fn parse_dpkg_l4t_version(text: &str) -> (r: Option<String>)
    ensures
        opt_view(r) == dpkg_l4t_version(text@),
{
    let ls = split_lines(&chars_of(text));
    proof {
        assert(views(ls@).len() == ls@.len());
    }
    if ls.len() == 0 {
        return None;
    }
    proof {
        assert(views(ls@)[0] == ls@[0]@);
    }
    let w = split_words(&ls[0]);
    proof {
        assert(views(w@).len() == w@.len());
    }
    if w.len() < 2 {
        return None;
    }
    proof {
        assert(views(w@)[1] == w@[1]@);
    }
    let v = trim_chars(&before_char_chars(&w[1], '-'));
    if v.len() > 0 {
        Some(string_of(v.as_slice()))
    } else {
        None
    }
}

/// The JetPack release of an L4T release: 36.x gives 6.(x - 3) (6.0 below
/// 36.3), 35 gives "5.x", anything else "unknown"; a part that does not read
/// as a number counts as zero.
pub open spec fn jetpack_of(l4t: Seq<char>) -> Seq<char> {
    let segs = split_char(l4t, '.');
    let major: u32 = match parse_u32(segs[0]) {
        Some(v) => v,
        None => 0,
    };
    if major == 36 {
        let minor: u32 = if segs.len() > 1 {
            match parse_u32(segs[1]) {
                Some(v) => v,
                None => 0,
            }
        } else {
            0
        };
        let jp: nat = if minor >= 3 {
            (minor - 3) as nat
        } else {
            0
        };
        "6."@ + decimal(jp)
    } else if major == 35 {
        "5.x"@
    } else {
        "unknown"@
    }
}

/// The JetPack release of an L4T release (see `jetpack_of`).
pub fn l4t_to_jetpack(l4t: &str) -> (r: String)
    ensures
        r@ == jetpack_of(l4t@),
{
    let segs = split_chars(&chars_of(l4t), '.');
    proof {
        crate::text::lemma_split_char_first(l4t@, '.');
        assert(views(segs@).len() == segs@.len());
        assert(views(segs@)[0] == segs@[0]@);
    }
    let major: u32 = match parse_u32_chars(&segs[0]) {
        Some(v) => v,
        None => 0,
    };
    if major == 36 {
        let minor: u32 = if segs.len() > 1 {
            proof {
                assert(views(segs@)[1] == segs@[1]@);
            }
            match parse_u32_chars(&segs[1]) {
                Some(v) => v,
                None => 0,
            }
        } else {
            0
        };
        let jp: u32 = if minor >= 3 {
            minor - 3
        } else {
            0
        };
        let mut v: Vec<char> = Vec::new();
        push_str(&mut v, "6.");
        push_decimal(&mut v, jp as u64);
        proof {
            assert(v@ =~= "6."@ + decimal(jp as nat));
        }
        string_of(v.as_slice())
    } else if major == 35 {
        String::from_str("5.x")
    } else {
        String::from_str("unknown")
    }
}

/// The JetPack release shown for an L4T release: "unknown" when none was
/// found.
pub open spec fn jetpack_for(l4t: Seq<char>) -> Seq<char> {
    if l4t.len() == 0 {
        "unknown"@
    } else {
        jetpack_of(l4t)
    }
}

/// The JetPack release shown for an L4T release (see `jetpack_for`).
pub fn jetpack_version(l4t: &str) -> (r: String)
    ensures
        r@ == jetpack_for(l4t@),
{
    if l4t.is_empty() {
        String::from_str("unknown")
    } else {
        l4t_to_jetpack(l4t)
    }
}


/// The string value of the first `"version"` key of a JSON text: after the
/// key, a ':', then (past white space) a quoted string.
pub open spec fn version_value(t: Seq<char>) -> Option<Seq<char>> {
    match find(t, "\"version\""@) {
        None => None,
        Some(v) => {
            let after = t.skip(v + 9);
            match find_char_from(after, ':', 0) {
                None => None,
                Some(k) => {
                    let ac = trim(after.skip(k + 1));
                    if ac.len() > 0 && ac[0] == '"' {
                        let inner = ac.skip(1);
                        match find_char_from(inner, '"', 0) {
                            Some(e) => Some(inner.take(e)),
                            None => None,
                        }
                    } else {
                        None
                    }
                }
            }
        },
    }
}

/// The CUDA release that `/usr/local/cuda/version.json` gives: the version
/// that follows the `"cuda"` key, else the first version in the file.
pub open spec fn cuda_json_version(content: Seq<char>) -> Option<Seq<char>> {
    let under_cuda = match find(content, "\"cuda\""@) {
        Some(c) => version_value(content.skip(c)),
        None => None,
    };
    match under_cuda {
        Some(x) => Some(x),
        None => version_value(content),
    }
}

fn version_value_exec(t: &Vec<char>) -> (r: Option<Vec<char>>)
    ensures
        match r {
            Some(x) => version_value(t@) == Some(x@),
            None => version_value(t@) is None,
        },
{
    let key = chars_of("\"version\"");
    proof {
        reveal_strlit("\"version\"");
    }
    let tl = t.len();
    let v = match find_chars(t, &key) {
        Some(v) => v,
        None => {
            return None;
        },
    };
    proof {
        crate::text::lemma_find_from_range(t@, key@, 0);
    }
    let after = slice_of(t, v + 9, tl);
    assert(after@ =~= t@.skip(v + 9));
    let k = match find_char_first(&after, ':') {
        Some(k) => k,
        None => {
            return None;
        },
    };
    proof {
        crate::text::lemma_find_char_from_range(after@, ':', 0);
    }
    let rest = slice_of(&after, k + 1, after.len());
    assert(rest@ =~= after@.skip(k + 1));
    let ac = trim_chars(&rest);
    if ac.len() > 0 && ac[0] == '"' {
        let inner = slice_of(&ac, 1, ac.len());
        assert(inner@ =~= ac@.skip(1));
        match find_char_first(&inner, '"') {
            Some(e) => {
                proof {
                    crate::text::lemma_find_char_from_range(inner@, '"', 0);
                }
                let x = slice_of(&inner, 0, e);
                assert(x@ =~= inner@.take(e as int));
                Some(x)
            },
            None => None,
        }
    } else {
        None
    }
}

/// Reads `/usr/local/cuda/version.json` (see `cuda_json_version`).
pub fn parse_cuda_version_json(content: &str) -> (r: Option<String>)
    ensures
        opt_view(r) == cuda_json_version(content@),
{
    let v = chars_of(content);
    let key = chars_of("\"cuda\"");
    let under_cuda = match find_chars(&v, &key) {
        Some(c) => {
            proof {
                crate::text::lemma_find_from_range(v@, key@, 0);
            }
            let tail = slice_of(&v, c, v.len());
            assert(tail@ =~= v@.skip(c as int));
            version_value_exec(&tail)
        },
        None => None,
    };
    match under_cuda {
        Some(x) => Some(string_of(x.as_slice())),
        None => match version_value_exec(&v) {
            Some(x) => Some(string_of(x.as_slice())),
            None => None,
        },
    }
}

/// The CUDA release that `/usr/local/cuda/version.txt` gives: the last word
/// of its first line ("CUDA Version X.Y.Z"), when it holds a '.'.
pub open spec fn cuda_txt_version(content: Seq<char>) -> Option<Seq<char>> {
    let ls = lines(content);
    if ls.len() == 0 {
        None
    } else {
        let w = words(ls[0]);
        if w.len() > 0 && find_char_from(w.last(), '.', 0) is Some {
            Some(w.last())
        } else {
            None
        }
    }
}

/// Reads `/usr/local/cuda/version.txt` (see `cuda_txt_version`).
pub fn parse_cuda_version_txt(content: &str) -> (r: Option<String>)
    ensures
        opt_view(r) == cuda_txt_version(content@),
{
    let ls = split_lines(&chars_of(content));
    proof {
        assert(views(ls@).len() == ls@.len());
    }
    if ls.len() == 0 {
        return None;
    }
    proof {
        assert(views(ls@)[0] == ls@[0]@);
    }
    let w = split_words(&ls[0]);
    proof {
        assert(views(w@).len() == w@.len());
    }
    if w.len() == 0 {
        return None;
    }
    let last = &w[w.len() - 1];
    proof {
        assert(views(w@).last() == last@);
    }
    if find_char_first(last, '.').is_some() {
        Some(string_of(last.as_slice()))
    } else {
        None
    }
}

/// The kernel release that `/proc/version` gives: its third word ("Linux
/// version X ..."), or empty.
pub open spec fn kernel_version_of(content: Seq<char>) -> Seq<char> {
    let w = words(content);
    if w.len() > 2 {
        w[2]
    } else {
        seq![]
    }
}

/// Reads `/proc/version` (see `kernel_version_of`).
pub fn parse_kernel_version(content: &str) -> (r: String)
    ensures
        r@ == kernel_version_of(content@),
{
    let w = split_words(&chars_of(content));
    proof {
        assert(views(w@).len() == w@.len());
    }
    if w.len() > 2 {
        proof {
            assert(views(w@)[2] == w@[2]@);
        }
        string_of(w[2].as_slice())
    } else {
        String::new()
    }
}

/// A device-tree string: NUL characters and then white space removed from
/// both ends; empty when the file could not be read.
pub open spec fn device_tree_text(raw: Option<Seq<char>>) -> Seq<char> {
    match raw {
        Some(s) => trim(trim_char(s, '\0')),
        None => seq![],
    }
}

fn device_tree_exec(raw: Option<&str>) -> (r: String)
    ensures
        r@ == device_tree_text(opt_str_view(raw)),
{
    match raw {
        Some(s) => {
            let t = trim_chars(&trim_char_chars(&chars_of(s), '\0'));
            string_of(t.as_slice())
        },
        None => String::new(),
    }
}

/// What the monitor knows of the board, from the contents of its
/// device-tree `model` and `serial-number` files and of `/etc/hostname`
/// (`None` for a file that could not be read), the releases found, and the
/// uptime. The family is read from the model, and the JetPack release from
/// the L4T release.
pub fn board_info(
    model: Option<&str>,
    serial: Option<&str>,
    l4t_version: String,
    cuda_version: String,
    kernel_version: String,
    hostname: Option<&str>,
    uptime: u64,
) -> (r: BoardInfo)
    ensures
        r.model@ == device_tree_text(opt_str_view(model)),
        model_matches(r.board_type, r.model@),
        r.serial@ == device_tree_text(opt_str_view(serial)),
        r.l4t_version == l4t_version,
        r.jetpack_version@ == jetpack_for(l4t_version@),
        r.cuda_version == cuda_version,
        r.kernel_version == kernel_version,
        r.hostname@ == crate::text::attr_text(opt_str_view(hostname)),
        r.uptime == uptime,
{
    let model = device_tree_exec(model);
    let board_type = parse_model(model.as_str());
    let serial = device_tree_exec(serial);
    let jetpack_version = jetpack_version(l4t_version.as_str());
    let hostname = crate::text::read_attr_text(hostname);
    BoardInfo {
        model,
        board_type,
        serial,
        l4t_version,
        jetpack_version,
        cuda_version,
        kernel_version,
        hostname,
        uptime,
    }
}

} // verus!
