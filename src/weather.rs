//! Weather icon selection from a forecast icon URL.
use vstd::prelude::*;

use crate::text::{chars_of, spells};

verus! {

/// Failure of a forecast lookup.
#[derive(Debug, Clone, Copy, PartialEq, Eq, Structural)]
pub enum WeatherError {
    /// The forecast service returned no forecast periods.
    NoResults,
}

impl WeatherError {
    /// Human-readable description.
    pub fn message(&self) -> (r: &'static str)
        ensures
            r@ == "No results from api"@,
    {
        match self {
            WeatherError::NoResults => "No results from api",
        }
    }
}

/// Index of the last `c` in `s`, or -1.
pub open spec fn last_index(s: Seq<char>, c: char) -> int
    decreases s.len(),
{
    if s.len() == 0 {
        -1
    } else if s.last() == c {
        s.len() - 1
    } else {
        last_index(s.drop_last(), c)
    }
}

/// Length of the prefix of `s` before the first `'?'` or `','`.
pub open spec fn stem_len(s: Seq<char>) -> int
    decreases s.len(),
{
    if s.len() == 0 {
        0
    } else if s[0] == '?' || s[0] == ',' {
        0
    } else {
        1 + stem_len(s.drop_first())
    }
}

/// The condition code of an icon URL: its last path segment, up to the
/// query string and up to the first comma.
pub open spec fn icon_key(url: Seq<char>) -> Seq<char> {
    let seg = url.subrange(last_index(url, '/') + 1, url.len() as int);
    seg.take(stem_len(seg))
}

/// The icon shown for a condition code, by day or by night; empty for an
/// unknown code.
pub open spec fn icon_for(key: Seq<char>, day: bool) -> Seq<char> {
    if key == "skc"@ {
        if day { "\u{2600}"@ } else { "\u{1F319}"@ }
    } else if key == "few"@ {
        if day { "\u{1F324}"@ } else { "\u{1F325}"@ }
    } else if key == "sct"@ {
        if day { "\u{26C5}"@ } else { "\u{1F325}"@ }
    } else if key == "bkn"@ {
        if day { "\u{1F325}"@ } else { "\u{2601}"@ }
    } else if key == "ovc"@ {
        "\u{2601}"@
    } else if key == "wind_skc"@ || key == "wind_few"@ || key == "wind_sct"@ || key
        == "wind_bkn"@ || key == "wind_ovc"@ {
        "\u{1F32C}"@
    } else if key == "snow"@ {
        "\u{1F328}"@
    } else if key == "blizzard"@ || key == "cold"@ {
        "\u{2744}"@
    } else if key == "fzra"@ || key == "rain_fzra"@ || key == "snow_fzra"@ {
        "\u{1F327}"@
    } else if key == "rain_snow"@ || key == "rain_sleet"@ || key == "snow_sleet"@ || key
        == "sleet"@ {
        "\u{1F326}"@
    } else if key == "rain_showers"@ || key == "rain"@ {
        "\u{1F327}"@
    } else if key == "rain_showers_hi"@ {
        "\u{1F326}"@
    } else if key == "tsra"@ {
        "\u{26C8}"@
    } else if key == "tsra_sct"@ || key == "tsra_hi"@ {
        "\u{26A1}"@
    } else if key == "tornado"@ || key == "hurricane"@ || key == "tropical_storm"@ {
        "\u{1F32A}"@
    } else if key == "dust"@ {
        "\u{1F4A8}"@
    } else if key == "smoke"@ || key == "hot"@ {
        "\u{1F525}"@
    } else if key == "haze"@ {
        "\u{1F301}"@
    } else if key == "fog"@ {
        "\u{1F32B}"@
    } else {
        ""@
    }
}

/// The condition code of an icon URL, as [`icon_key`] describes it.
fn url_key(url: &str) -> (r: Vec<char>)
    ensures
        r@ == icon_key(url@),
{
    let s = chars_of(url);
    let ghost t = s@;
    let mut slash: usize = s.len();
    assert(t.take(slash as int) =~= t);
    while slash > 0 && s[slash - 1] != '/'
        invariant
            slash <= t.len(),
            t == s@,
            last_index(t, '/') == last_index(t.take(slash as int), '/'),
        decreases slash,
    {
        assert(t.take(slash as int).drop_last() =~= t.take(slash - 1));
        slash = slash - 1;
    }
    let from: usize = slash;
    if slash > 0 {
        assert(t.take(slash as int).last() == '/');
    } else {
        assert(t.take(0) =~= Seq::<char>::empty());
    }
    assert(last_index(t, '/') + 1 == from);
    let ghost seg = t.subrange(from as int, t.len() as int);
    let mut out: Vec<char> = Vec::new();
    let mut i: usize = from;
    assert(seg.skip(0) =~= seg);
    while i < s.len() && s[i] != '?' && s[i] != ','
        invariant
            from <= i <= t.len(),
            t == s@,
            seg == t.subrange(from as int, t.len() as int),
            out@ == seg.take(i - from),
            stem_len(seg) == (i - from) + stem_len(seg.skip(i - from)),
        decreases t.len() - i,
    {
        out.push(s[i]);
        assert(seg.skip(i - from).drop_first() =~= seg.skip(i - from + 1));
        i = i + 1;
        assert(out@ =~= seg.take(i - from));
    }
    assert(stem_len(seg.skip(i - from)) == 0);
    out
}

/// The weather icon for a forecast icon URL, by day or by night; empty when
/// the condition code is unknown.
pub fn mkicon(icon_url: &str, is_daytime: bool) -> (r: &'static str)
    ensures
        r@ == icon_for(icon_key(icon_url@), is_daytime),
{
    let key = url_key(icon_url);
    if spells(&key, "skc") {
        if is_daytime { "\u{2600}" } else { "\u{1F319}" }
    } else if spells(&key, "few") {
        if is_daytime { "\u{1F324}" } else { "\u{1F325}" }
    } else if spells(&key, "sct") {
        if is_daytime { "\u{26C5}" } else { "\u{1F325}" }
    } else if spells(&key, "bkn") {
        if is_daytime { "\u{1F325}" } else { "\u{2601}" }
    } else if spells(&key, "ovc") {
        "\u{2601}"
    } else if spells(&key, "wind_skc") || spells(&key, "wind_few") || spells(&key, "wind_sct")
        || spells(&key, "wind_bkn") || spells(&key, "wind_ovc") {
        "\u{1F32C}"
    } else if spells(&key, "snow") {
        "\u{1F328}"
    } else if spells(&key, "blizzard") || spells(&key, "cold") {
        "\u{2744}"
    } else if spells(&key, "fzra") || spells(&key, "rain_fzra") || spells(&key, "snow_fzra") {
        "\u{1F327}"
    } else if spells(&key, "rain_snow") || spells(&key, "rain_sleet") || spells(
        &key,
        "snow_sleet",
    ) || spells(&key, "sleet") {
        "\u{1F326}"
    } else if spells(&key, "rain_showers") || spells(&key, "rain") {
        "\u{1F327}"
    } else if spells(&key, "rain_showers_hi") {
        "\u{1F326}"
    } else if spells(&key, "tsra") {
        "\u{26C8}"
    } else if spells(&key, "tsra_sct") || spells(&key, "tsra_hi") {
        "\u{26A1}"
    } else if spells(&key, "tornado") || spells(&key, "hurricane") || spells(
        &key,
        "tropical_storm",
    ) {
        "\u{1F32A}"
    } else if spells(&key, "dust") {
        "\u{1F4A8}"
    } else if spells(&key, "smoke") || spells(&key, "hot") {
        "\u{1F525}"
    } else if spells(&key, "haze") {
        "\u{1F301}"
    } else if spells(&key, "fog") {
        "\u{1F32B}"
    } else {
        ""
    }
}

} // verus!
