use vstd::prelude::*;

use crate::text::{
    attr_text, contains, find_chars, chars_of, opt_str_view, parse_i64, parse_trimmed_i64, parse_u32,
    parse_u32_chars, read_attr_text, slice_of, starts_with, starts_with_chars, trim, trimmed,
};

verus! {

/// The thermal zones of the board.
#[derive(Debug, Clone, PartialEq, Eq)]
pub struct TempStats {
    pub zones: Vec<ThermalZone>,
}

/// One thermal zone.
#[derive(Debug, Clone, PartialEq, Eq)]
pub struct ThermalZone {
    pub name: String,
    /// Temperature in thousandths of a degree Celsius.
    pub temp_milli: i64,
    pub zone_type: String,
    pub trip_points: Vec<TripPoint>,
}

/// A temperature at which the kernel acts.
#[derive(Debug, Clone, PartialEq, Eq)]
pub struct TripPoint {
    /// Thousandths of a degree Celsius.
    pub temp_milli: i64,
    /// "passive", "active", "critical", ...
    pub trip_type: String,
}

impl Default for TempStats {
    fn default() -> (r: TempStats)
        ensures
            r.zones@.len() == 0,
    {
        TempStats { zones: Vec::new() }
    }
}

/// The contents of the two files of one trip point: its temperature (which
/// was read) and its type (`None` when it could not be read).
pub struct TripReading {
    pub temp: String,
    pub trip_type: Option<String>,
}

/// A thermal zone's directory, by its name.
pub open spec fn is_thermal_zone(name: Seq<char>) -> bool {
    starts_with(name, "thermal_zone"@)
}

/// Whether a directory, by its name, is a thermal zone.
pub fn is_thermal_zone_name(name: &str) -> (b: bool)
    ensures
        b == is_thermal_zone(name@),
{
    starts_with_chars(&chars_of(name), &chars_of("thermal_zone"))
}

/// The number of a thermal zone's directory ("thermal_zoneN"), by which the
/// zones are ordered; `u32::MAX` when it has none.
pub open spec fn zone_number(name: Seq<char>) -> u32 {
    if starts_with(name, "thermal_zone"@) {
        match parse_u32(name.skip(12)) {
            Some(n) => n,
            None => u32::MAX,
        }
    } else {
        u32::MAX
    }
}

/// `zone_number` of a directory name.
pub fn thermal_zone_index(name: &str) -> (n: u32)
    ensures
        n == zone_number(name@),
{
    let v = chars_of(name);
    let p = chars_of("thermal_zone");
    if !starts_with_chars(&v, &p) {
        return u32::MAX;
    }
    proof {
        reveal_strlit("thermal_zone");
    }
    let rest = slice_of(&v, p.len(), v.len());
    assert(rest@ =~= v@.skip(12));
    match parse_u32_chars(&rest) {
        Some(n) => n,
        None => u32::MAX,
    }
}

/// A trip point from its readings: its temperature (zero when the file does
/// not hold a number) and type ("unknown" when it could not be read).
pub open spec fn trip_point_matches(t: TripPoint, r: TripReading) -> bool {
    &&& t.temp_milli == (match parse_i64(trim(r.temp@)) {
        Some(v) => v,
        None => 0,
    })
    &&& t.trip_type@ == (match r.trip_type {
        Some(s) => trim(s@),
        None => "unknown"@,
    })
}

/// A thermal zone from the contents of its `temp` and `type` files and of
/// its trip points in order; `None` when the temperature does not read as a
/// number (the zone is then skipped). The zone is named by its type.
pub fn thermal_zone(temp: &str, zone_type: Option<&str>, trips: &Vec<TripReading>) -> (r: Option<
    ThermalZone,
>)
    ensures
        parse_i64(trim(temp@)) is None ==> r is None,
        parse_i64(trim(temp@)) matches Some(t) ==> r matches Some(z) && {
            &&& z.temp_milli == t
            &&& z.zone_type@ == attr_text(opt_str_view(zone_type))
            &&& z.name@ == z.zone_type@
            &&& z.trip_points@.len() == trips@.len()
            &&& forall|i: int|
                0 <= i < trips@.len() ==> trip_point_matches(
                    #[trigger] z.trip_points@[i],
                    trips@[i],
                )
        },
{
    let t = match parse_trimmed_i64(temp) {
        Some(t) => t,
        None => {
            return None;
        },
    };
    let mut points: Vec<TripPoint> = Vec::new();
    let mut i: usize = 0;
    while i < trips.len()
        invariant
            i <= trips.len(),
            points@.len() == i,
            forall|j: int| 0 <= j < i ==> trip_point_matches(#[trigger] points@[j], trips@[j]),
        decreases trips.len() - i,
    {
        let r = &trips[i];
        let temp_milli = match parse_trimmed_i64(r.temp.as_str()) {
            Some(v) => v,
            None => 0,
        };
        let trip_type = match &r.trip_type {
            Some(s) => trimmed(s.as_str()),
            None => String::from_str("unknown"),
        };
        points.push(TripPoint { temp_milli, trip_type });
        i = i + 1;
    }
    let zone_type = read_attr_text(zone_type);
    let name = zone_type.clone();
    Some(ThermalZone { name, temp_milli: t, zone_type, trip_points: points })
}


/// The views of a sequence of strings.
pub open spec fn string_views(s: Seq<String>) -> Seq<Seq<char>> {
    s.map_values(|x: String| x@)
}

/// The names with a given zone number, in order.
pub open spec fn with_number(s: Seq<Seq<char>>, k: u32) -> Seq<Seq<char>>
    decreases s.len(),
{
    if s.len() == 0 {
        seq![]
    } else {
        let r = with_number(s.drop_last(), k);
        if zone_number(s.last()) == k {
            r.push(s.last())
        } else {
            r
        }
    }
}

/// The names are in increasing zone number.
pub open spec fn numbers_sorted(s: Seq<Seq<char>>) -> bool {
    forall|i: int, j: int|
        0 <= i < j < s.len() ==> zone_number(#[trigger] s[i]) <= zone_number(#[trigger] s[j])
}

/// `out` lists the zones of `input` by zone number, zones with the same
/// number (or none) in their order in `input`: a stable sort.
pub open spec fn is_zone_order(out: Seq<Seq<char>>, input: Seq<Seq<char>>) -> bool {
    &&& numbers_sorted(out)
    &&& forall|k: u32| #[trigger] with_number(out, k) == with_number(input, k)
}

proof fn lemma_with_number_add(a: Seq<Seq<char>>, b: Seq<Seq<char>>, k: u32)
    ensures
        with_number(a + b, k) == with_number(a, k) + with_number(b, k),
    decreases b.len(),
{
    if b.len() == 0 {
        assert(a + b =~= a);
        assert(with_number(a, k) + with_number(b, k) =~= with_number(a, k));
    } else {
        lemma_with_number_add(a, b.drop_last(), k);
        assert((a + b).drop_last() =~= a + b.drop_last());
        assert((a + b).last() == b.last());
        if zone_number(b.last()) == k {
            assert(with_number(a, k) + with_number(b, k) =~= (with_number(a, k) + with_number(
                b.drop_last(),
                k,
            )).push(b.last()));
        }
    }
}

proof fn lemma_with_number_none(s: Seq<Seq<char>>, k: u32)
    requires
        forall|i: int| 0 <= i < s.len() ==> zone_number(#[trigger] s[i]) != k,
    ensures
        with_number(s, k) == Seq::<Seq<char>>::empty(),
    decreases s.len(),
{
    if s.len() > 0 {
        lemma_with_number_none(s.drop_last(), k);
    }
}

proof fn lemma_insert_keeps_order(s: Seq<Seq<char>>, x: Seq<char>, p: int)
    requires
        numbers_sorted(s),
        0 <= p <= s.len(),
        forall|i: int| 0 <= i < p ==> zone_number(#[trigger] s[i]) <= zone_number(x),
        forall|i: int| p <= i < s.len() ==> zone_number(#[trigger] s[i]) > zone_number(x),
    ensures
        numbers_sorted(s.take(p) + seq![x] + s.skip(p)),
        forall|k: u32|
            #[trigger] with_number(s.take(p) + seq![x] + s.skip(p), k) == if k == zone_number(x) {
                with_number(s, k).push(x)
            } else {
                with_number(s, k)
            },
{
    let n = s.take(p) + seq![x] + s.skip(p);
    assert forall|i: int, j: int| 0 <= i < j < n.len() implies zone_number(#[trigger] n[i])
        <= zone_number(#[trigger] n[j]) by {
        if j < p {
            assert(n[i] == s[i] && n[j] == s[j]);
        } else if j == p {
            assert(n[i] == s[i]);
        } else if i < p {
            assert(n[i] == s[i] && n[j] == s[j - 1]);
        } else if i == p {
            assert(n[j] == s[j - 1]);
        } else {
            assert(n[i] == s[i - 1] && n[j] == s[j - 1]);
        }
    }
    assert(s.take(p) + s.skip(p) =~= s);
    assert forall|k: u32| #[trigger]
        with_number(n, k) == if k == zone_number(x) {
            with_number(s, k).push(x)
        } else {
            with_number(s, k)
        } by {
        let a = s.take(p);
        let b = s.skip(p);
        lemma_with_number_add(a + seq![x], b, k);
        lemma_with_number_add(a, seq![x], k);
        lemma_with_number_add(a, b, k);
        assert(seq![x].drop_last() =~= Seq::<Seq<char>>::empty());
        assert(with_number(seq![x].drop_last(), k) =~= Seq::<Seq<char>>::empty());
        assert(seq![x].last() == x);
        let wa = with_number(a, k);
        let wb = with_number(b, k);
        let wx = with_number(seq![x], k);
        assert(with_number(s, k) == wa + wb);
        assert(with_number(n, k) == (wa + wx) + wb);
        if k == zone_number(x) {
            assert forall|i: int| 0 <= i < b.len() implies zone_number(#[trigger] b[i]) != k by {
                assert(b[i] == s[p + i]);
            }
            lemma_with_number_none(b, k);
            assert(wx =~= seq![x]);
            assert((wa + wx) + wb =~= (wa + wb).push(x));
        } else {
            assert(wx =~= Seq::<Seq<char>>::empty());
            assert((wa + wx) + wb =~= wa + wb);
        }
    }
}

proof fn lemma_with_number_member(s: Seq<Seq<char>>, k: u32)
    requires
        with_number(s, k).len() > 0,
    ensures
        exists|i: int| 0 <= i < s.len() && zone_number(#[trigger] s[i]) == k,
    decreases s.len(),
{
    if zone_number(s.last()) != k {
        lemma_with_number_member(s.drop_last(), k);
        let i = choose|i: int| 0 <= i < s.drop_last().len() && zone_number(#[trigger] s.drop_last()[i]) == k;
        assert(s[i] == s.drop_last()[i]);
    } else {
        assert(zone_number(s[s.len() - 1]) == k);
    }
}

proof fn lemma_same_numbers_equal(a: Seq<Seq<char>>, b: Seq<Seq<char>>)
    requires
        numbers_sorted(a),
        numbers_sorted(b),
        forall|k: u32| #[trigger] with_number(a, k) == with_number(b, k),
    ensures
        a == b,
    decreases a.len() + b.len(),
{
    if a.len() == 0 && b.len() == 0 {
        assert(a =~= b);
    } else if a.len() == 0 {
        let k = zone_number(b.last());
        assert(with_number(b, k).len() > 0);
        assert(with_number(a, k) == with_number(b, k));
    } else if b.len() == 0 {
        let k = zone_number(a.last());
        assert(with_number(a, k).len() > 0);
        assert(with_number(a, k) == with_number(b, k));
    } else {
        let ka = zone_number(a.last());
        let kb = zone_number(b.last());
        assert(with_number(a, kb) == with_number(b, kb));
        assert(with_number(b, kb).len() > 0);
        lemma_with_number_member(a, kb);
        assert(kb <= ka) by {
            let i = choose|i: int| 0 <= i < a.len() && zone_number(#[trigger] a[i]) == kb;
            if i < a.len() - 1 {
                assert(zone_number(a[i]) <= zone_number(a[a.len() - 1]));
            }
        }
        assert(with_number(a, ka) == with_number(b, ka));
        assert(with_number(a, ka).len() > 0);
        lemma_with_number_member(b, ka);
        assert(ka <= kb) by {
            let i = choose|i: int| 0 <= i < b.len() && zone_number(#[trigger] b[i]) == ka;
            if i < b.len() - 1 {
                assert(zone_number(b[i]) <= zone_number(b[b.len() - 1]));
            }
        }
        assert(with_number(a, ka).last() == a.last());
        assert(with_number(b, ka).last() == b.last());
        assert forall|k: u32| #[trigger] with_number(a.drop_last(), k) == with_number(b.drop_last(), k) by {
            assert(with_number(a, k) == with_number(b, k));
            if k == ka {
                assert(with_number(a.drop_last(), k) =~= with_number(a, k).drop_last());
                assert(with_number(b.drop_last(), k) =~= with_number(b, k).drop_last());
            }
        }
        assert(numbers_sorted(a.drop_last())) by {
            assert forall|i: int, j: int| 0 <= i < j < a.drop_last().len() implies zone_number(
                #[trigger] a.drop_last()[i],
            ) <= zone_number(#[trigger] a.drop_last()[j]) by {
                assert(a.drop_last()[i] == a[i] && a.drop_last()[j] == a[j]);
            }
        }
        assert(numbers_sorted(b.drop_last())) by {
            assert forall|i: int, j: int| 0 <= i < j < b.drop_last().len() implies zone_number(
                #[trigger] b.drop_last()[i],
            ) <= zone_number(#[trigger] b.drop_last()[j]) by {
                assert(b.drop_last()[i] == b[i] && b.drop_last()[j] == b[j]);
            }
        }
        lemma_same_numbers_equal(a.drop_last(), b.drop_last());
        assert(a =~= a.drop_last().push(a.last()));
        assert(b =~= b.drop_last().push(b.last()));
    }
}

/// Ordering zones is deterministic: there is exactly one stable order of a
/// list of zone names by zone number, so two orderings of the same names
/// agree.
pub proof fn lemma_zone_order_unique(a: Seq<Seq<char>>, b: Seq<Seq<char>>, input: Seq<Seq<char>>)
    requires
        is_zone_order(a, input),
        is_zone_order(b, input),
    ensures
        a == b,
{
    assert forall|k: u32| #[trigger] with_number(a, k) == with_number(b, k) by {
        assert(with_number(a, k) == with_number(input, k));
        assert(with_number(b, k) == with_number(input, k));
    }
    lemma_same_numbers_equal(a, b);
}

/// Orders thermal zones' directory names by zone number, keeping the
/// directory order among zones with the same number (or none).
pub fn sort_zone_names(names: Vec<String>) -> (r: Vec<String>)
    ensures
        is_zone_order(string_views(r@), string_views(names@)),
{
    let ghost input = string_views(names@);
    let mut out: Vec<String> = Vec::new();
    let mut keys: Vec<u32> = Vec::new();
    let mut i: usize = 0;
    proof {
        assert(input.take(0) =~= Seq::<Seq<char>>::empty());
        assert(string_views(out@) =~= Seq::<Seq<char>>::empty());
    }
    while i < names.len()
        invariant
            i <= names.len(),
            input == string_views(names@),
            keys@.len() == out@.len(),
            forall|j: int| 0 <= j < out@.len() ==> keys@[j] == zone_number(#[trigger] out@[j]@),
            is_zone_order(string_views(out@), input.take(i as int)),
        decreases names.len() - i,
    {
        let x = names[i].clone();
        let kx = thermal_zone_index(x.as_str());
        let ghost s = string_views(out@);
        let mut p: usize = 0;
        while p < out.len() && keys[p] <= kx
            invariant
                p <= out@.len(),
                keys@.len() == out@.len(),
                s == string_views(out@),
                forall|j: int| 0 <= j < out@.len() ==> keys@[j] == zone_number(#[trigger] out@[j]@),
                forall|j: int| 0 <= j < p ==> zone_number(#[trigger] s[j]) <= kx,
            decreases out@.len() - p,
        {
            assert(s[p as int] == out@[p as int]@);
            p = p + 1;
        }
        proof {
            assert forall|j: int| p <= j < s.len() implies zone_number(#[trigger] s[j]) > kx by {
                assert(s[p as int] == out@[p as int]@);
                assert(s[j] == out@[j]@);
                assert(numbers_sorted(s));
                if j > p {
                    assert(zone_number(s[p as int]) <= zone_number(s[j]));
                }
            }
            lemma_insert_keeps_order(s, x@, p as int);
            assert(input.take(i + 1).drop_last() =~= input.take(i as int));
            assert(input.take(i + 1).last() == x@);
        }
        out.insert(p, x);
        keys.insert(p, kx);
        proof {
            assert(string_views(out@) =~= s.take(p as int) + seq![x@] + s.skip(p as int));
            assert forall|j: int| 0 <= j < out@.len() implies keys@[j] == zone_number(
                #[trigger] out@[j]@,
            ) by {
                if j < p {
                } else if j == p {
                } else {
                }
            }
        }
        i = i + 1;
    }
    proof {
        assert(input.take(i as int) =~= input);
    }
    out
}


/// What `str::to_uppercase` gives for a text (Unicode upper-case mapping).
pub uninterp spec fn to_upper(s: Seq<char>) -> Seq<char>;

/// Calls `str::to_uppercase`; its result is named `to_upper` of the text.
#[verifier::external_body]
fn uppercase(s: &str) -> (r: String)
    ensures
        r@ == to_upper(s@),
{
    s.to_uppercase()
}

/// The first name at or after `i` that contains `key`.
pub open spec fn first_containing(names: Seq<Seq<char>>, key: Seq<char>, i: int) -> Option<int>
    decreases names.len() - i,
{
    if !(0 <= i < names.len()) {
        None
    } else if contains(names[i], key) {
        Some(i)
    } else {
        first_containing(names, key, i + 1)
    }
}

/// The names of the zones in upper case.
pub open spec fn upper_names(zones: Seq<ThermalZone>) -> Seq<Seq<char>> {
    zones.map_values(|z: ThermalZone| to_upper(z.name@))
}

/// The index of the first of the names that contains `key`.
pub fn first_name_containing(names: &Vec<String>, key: &str) -> (r: Option<usize>)
    ensures
        match r {
            Some(i) => first_containing(string_views(names@), key@, 0) == Some(i as int),
            None => first_containing(string_views(names@), key@, 0) is None,
        },
{
    let k = chars_of(key);
    let ghost ns = string_views(names@);
    let mut i: usize = 0;
    while i < names.len()
        invariant
            i <= names.len(),
            ns == string_views(names@),
            k@ == key@,
            first_containing(ns, key@, 0) == first_containing(ns, key@, i as int),
        decreases names.len() - i,
    {
        let name = chars_of(names[i].as_str());
        if find_chars(&name, &k).is_some() {
            return Some(i);
        }
        i = i + 1;
    }
    None
}

/// The zone whose temperature stands for a hardware engine: the first whose
/// name contains the engine's key, both in upper case.
pub fn engine_zone(zones: &Vec<ThermalZone>, engine_key: &str) -> (r: Option<usize>)
    ensures
        match r {
            Some(i) => first_containing(upper_names(zones@), to_upper(engine_key@), 0) == Some(
                i as int,
            ),
            None => first_containing(upper_names(zones@), to_upper(engine_key@), 0) is None,
        },
{
    let key = uppercase(engine_key);
    let mut names: Vec<String> = Vec::new();
    let mut i: usize = 0;
    while i < zones.len()
        invariant
            i <= zones.len(),
            string_views(names@) == upper_names(zones@).take(i as int),
        decreases zones.len() - i,
    {
        let upper = uppercase(zones[i].name.as_str());
        let ghost before = names@;
        proof {
            assert(upper@ == upper_names(zones@)[i as int]);
            assert(upper_names(zones@).take(i + 1) =~= upper_names(zones@).take(i as int).push(
                upper@,
            ));
        }
        names.push(upper);
        proof {
            assert(string_views(names@) =~= string_views(before).push(upper@));
        }
        i = i + 1;
    }
    proof {
        assert(upper_names(zones@).take(i as int) =~= upper_names(zones@));
    }
    first_name_containing(&names, key.as_str())
}

} // verus!
