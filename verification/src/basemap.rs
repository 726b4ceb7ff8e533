//! The basemap proxy: the style address an application is given, which tile requests are
//! served, the upstream address a tile is fetched from, and which upstream answers are
//! passed on.

use vstd::prelude::*;
use crate::assistant::{lowercase, to_lowercase};
use crate::json::JsonValue;
use crate::projects::{text_is, text_member};
use crate::dry_run::{replace_all, replaced};
use crate::text::{
    append_chars, append_str, chars_of, decimal, decimal_of, digit, find_first, first_index,
    is_digit, lemma_first_index, seq_eq, trim_chars, trimmed, slice_of, starts_with, has_prefix, str_eq, string_of,
};

verus! {

/// The basemap a platform proxies, as the tile route reads it.
#[derive(Debug)]
pub struct Basemap {
    /// The upstream address, with `{z}`, `{x}`, `{y}`, `{ext}` and `{key}` in it.
    pub url_template: String,
    pub key: Option<String>,
    pub max_zoom: u8,
    /// Whether an `http://` upstream is accepted.
    pub allow_http: bool,
    pub attribution: String,
    /// How long a cached tile is served, in seconds.
    pub cache_ttl_secs: u64,
    /// How large the tile cache may grow, in bytes.
    pub cache_max_bytes: u64,
}

/// What the basemap routes read of the platform's configuration.
#[derive(Debug)]
pub struct Config {
    pub public_base_url: String,
    pub basemap: Option<Basemap>,
}

// ---------------------------------------------------------------------------------------
// The style
// ---------------------------------------------------------------------------------------

/// The string without the `/` characters it ends with.
pub open spec fn without_trailing_slashes(s: Seq<char>) -> Seq<char>
    decreases s.len(),
{
    if s.len() > 0 && s.last() == '/' {
        without_trailing_slashes(s.drop_last())
    } else {
        s
    }
}

fn trim_slashes(s: &[char]) -> (out: Vec<char>)
    ensures
        out@ == without_trailing_slashes(s@),
{
    let mut j: usize = s.len();
    assert(s@.subrange(0, j as int) =~= s@);
    while j > 0 && s[j - 1] == '/'
        invariant
            j <= s@.len(),
            without_trailing_slashes(s@) == without_trailing_slashes(s@.subrange(0, j as int)),
        decreases j,
    {
        assert(s@.subrange(0, j as int).drop_last() =~= s@.subrange(0, j - 1));
        j = j - 1;
    }
    slice_of(s, 0, j)
}

pub open spec fn style_url_of(base: Seq<char>, project: Seq<char>) -> Seq<char> {
    without_trailing_slashes(base) + "/api/v1/projects/"@ + project
        + "/basemap/default/style.json"@
}

/// Returns the absolute style URL for a given project if basemap proxying is configured.
pub fn style_url(config: &Config, project: &str) -> (r: Option<String>)
    ensures
        match r {
            Some(u) => config.basemap is Some && u@ == style_url_of(config.public_base_url@, project@),
            None => config.basemap is None,
        },
{
    if config.basemap.is_none() {
        return None;
    }
    let b = chars_of(config.public_base_url.as_str());
    let mut out = trim_slashes(b.as_slice());
    append_str(&mut out, "/api/v1/projects/");
    append_str(&mut out, project);
    append_str(&mut out, "/basemap/default/style.json");
    Some(string_of(out.as_slice()))
}

pub open spec fn tile_url_of(base: Seq<char>, project: Seq<char>) -> Seq<char> {
    without_trailing_slashes(base) + "/api/v1/projects/"@ + project
        + "/basemap/default/{z}/{x}/{y}.png"@
}

/// The tile address a style points an application at.
pub fn tile_url(public_base_url: &str, project: &str) -> (u: String)
    ensures
        u@ == tile_url_of(public_base_url@, project@),
{
    let b = chars_of(public_base_url);
    let mut out = trim_slashes(b.as_slice());
    append_str(&mut out, "/api/v1/projects/");
    append_str(&mut out, project);
    append_str(&mut out, "/basemap/default/{z}/{x}/{y}.png");
    string_of(out.as_slice())
}


/// Why a style is not served: no basemap on this platform, a style other than `default`, or a
/// project the mirror does not hold.
pub open spec fn style_refusal_of(configured: bool, style: Seq<char>, project: Seq<char>, projects: Seq<Seq<char>>) -> Option<Seq<char>> {
    if !configured {
        Some("basemap is not configured on this platform"@)
    } else if style != "default"@ {
        Some("basemap style '"@ + style + "' not found"@)
    } else if !projects.contains(project) {
        Some("project '"@ + project + "' not found"@)
    } else {
        None
    }
}

/// The detail of the 404 a style request is answered with, or nothing when the style is served.
pub fn style_refusal(config: &Config, style: &str, project: &str, projects: &Vec<String>) -> (r: Option<String>)
    ensures
        opt_text(r) == style_refusal_of(config.basemap is Some, style@, project@, crate::json::views(projects@)),
{
    if config.basemap.is_none() {
        return Some(string_of(chars_of("basemap is not configured on this platform").as_slice()));
    }
    if !str_eq(style, "default") {
        let mut m = chars_of("basemap style '");
        append_str(&mut m, style);
        append_str(&mut m, "' not found");
        return Some(string_of(m.as_slice()));
    }
    let mut i: usize = 0;
    while i < projects.len()
        invariant
            i <= projects@.len(),
            style@ == "default"@,
            config.basemap is Some,
            forall|j: int| 0 <= j < i ==> projects@[j]@ != project@,
        decreases projects.len() - i,
    {
        if str_eq(projects[i].as_str(), project) {
            assert(crate::json::views(projects@)[i as int] == project@);
            assert(crate::json::views(projects@).contains(project@));
            assert(style@ == "default"@);
            return None;
        }
        i = i + 1;
    }
    assert(!crate::json::views(projects@).contains(project@));
    let mut m = chars_of("project '");
    append_str(&mut m, project);
    append_str(&mut m, "' not found");
    Some(string_of(m.as_slice()))
}

pub open spec fn opt_text(s: Option<String>) -> Option<Seq<char>> {
    match s {
        Some(x) => Some(x@),
        None => None,
    }
}

/// A member `k` holding the number written `t`.
pub open spec fn number_member(p: (String, JsonValue), k: Seq<char>, t: Seq<char>) -> bool {
    p.1 matches JsonValue::Number(n) && n@ == t && p.0@ == k
}

/// The raster source of a style: the proxied tiles, their size, zoom and attribution.
pub open spec fn raster_source(v: JsonValue, tiles: Seq<char>, max_zoom: nat, attribution: Seq<char>) -> bool {
    v matches JsonValue::Object(m) && m@.len() == 5 && text_member(m@[0], "attribution"@, attribution)
        && number_member(m@[1], "maxzoom"@, decimal(max_zoom)) && number_member(m@[2], "tileSize"@, "256"@)
        && m@[3].0@ == "tiles"@ && (m@[3].1 matches JsonValue::Array(a) && a@.len() == 1 && text_is(a@[0], tiles))
        && text_member(m@[4], "type"@, "raster"@)
}

/// The one layer of a style, drawing the raster source at every zoom it has.
pub open spec fn raster_layer(v: JsonValue, max_zoom: nat) -> bool {
    v matches JsonValue::Object(m) && m@.len() == 5 && text_member(m@[0], "id"@, "raster-layer"@)
        && number_member(m@[1], "maxzoom"@, decimal(max_zoom)) && number_member(m@[2], "minzoom"@, "0"@)
        && text_member(m@[3], "source"@, "raster-tiles"@) && text_member(m@[4], "type"@, "raster"@)
}

/// The MapLibre style (version 8) of a project's basemap, its members in name order.
pub open spec fn style_of(v: JsonValue, base: Seq<char>, project: Seq<char>, max_zoom: nat, attribution: Seq<char>) -> bool {
    v matches JsonValue::Object(m) && m@.len() == 3 && m@[0].0@ == "layers"@ && (m@[0].1 matches JsonValue::Array(
        l,
    ) && l@.len() == 1 && raster_layer(l@[0], max_zoom)) && m@[1].0@ == "sources"@ && (m@[1].1 matches JsonValue::Object(
        srcs,
    ) && srcs@.len() == 1 && srcs@[0].0@ == "raster-tiles"@ && raster_source(
        srcs@[0].1,
        tile_url_of(base, project),
        max_zoom,
        attribution,
    )) && number_member(m@[2], "version"@, "8"@)
}

fn name_of(s: &str) -> (k: String)
    ensures
        k@ == s@,
{
    string_of(chars_of(s).as_slice())
}

fn text_value(s: &str) -> (v: JsonValue)
    ensures
        text_is(v, s@),
{
    JsonValue::Str(name_of(s))
}

fn number_value(d: Vec<char>) -> (v: JsonValue)
    ensures
        v matches JsonValue::Number(n) && n@ == d@,
{
    JsonValue::Number(string_of(d.as_slice()))
}

/// The style a project's applications load: one raster source through this platform's tile
/// route, drawn by one layer.
pub fn style_document(public_base_url: &str, project: &str, basemap: &Basemap) -> (v: JsonValue)
    ensures
        style_of(v, public_base_url@, project@, basemap.max_zoom as nat, basemap.attribution@),
{
    let tiles = tile_url(public_base_url, project);
    let mut tile_list: Vec<JsonValue> = Vec::new();
    tile_list.push(JsonValue::Str(tiles));
    let mut source: Vec<(String, JsonValue)> = Vec::new();
    source.push((name_of("attribution"), JsonValue::Str(basemap.attribution.clone())));
    source.push((name_of("maxzoom"), number_value(decimal_of(basemap.max_zoom as u64))));
    source.push((name_of("tileSize"), number_value(chars_of("256"))));
    source.push((name_of("tiles"), JsonValue::Array(tile_list)));
    source.push((name_of("type"), text_value("raster")));
    let mut sources: Vec<(String, JsonValue)> = Vec::new();
    sources.push((name_of("raster-tiles"), JsonValue::Object(source)));
    let mut layer: Vec<(String, JsonValue)> = Vec::new();
    layer.push((name_of("id"), text_value("raster-layer")));
    layer.push((name_of("maxzoom"), number_value(decimal_of(basemap.max_zoom as u64))));
    layer.push((name_of("minzoom"), number_value(chars_of("0"))));
    layer.push((name_of("source"), text_value("raster-tiles")));
    layer.push((name_of("type"), text_value("raster")));
    let mut layers: Vec<JsonValue> = Vec::new();
    layers.push(JsonValue::Object(layer));
    let mut style: Vec<(String, JsonValue)> = Vec::new();
    style.push((name_of("layers"), JsonValue::Array(layers)));
    style.push((name_of("sources"), JsonValue::Object(sources)));
    style.push((name_of("version"), number_value(chars_of("8"))));
    JsonValue::Object(style)
}


// ---------------------------------------------------------------------------------------
// Who asks
// ---------------------------------------------------------------------------------------

/// The client a tile request is counted against: the first address of `X-Forwarded-For`,
/// trimmed, or the loopback address when there is none.
pub open spec fn client_ip_of(forwarded: Option<Seq<char>>) -> Seq<char> {
    match forwarded {
        Some(h) => {
            let k = first_index(h, ',');
            let first = trimmed(
                if k >= 0 {
                    h.subrange(0, k)
                } else {
                    h
                },
            );
            if first.len() > 0 {
                first
            } else {
                "127.0.0.1"@
            }
        },
        None => "127.0.0.1"@,
    }
}

pub fn client_ip(forwarded: Option<&str>) -> (ip: String)
    ensures
        ip@ == client_ip_of(
            match forwarded {
                Some(h) => Some(h@),
                None => None,
            },
        ),
{
    if let Some(h) = forwarded {
        let c = chars_of(h);
        proof {
            lemma_first_index(h@, ',');
        }
        let first = match find_first(c.as_slice(), ',') {
            Some(k) => slice_of(c.as_slice(), 0, k),
            None => c,
        };
        let t = trim_chars(first.as_slice());
        if t.len() > 0 {
            return string_of(t.as_slice());
        }
    }
    string_of(chars_of("127.0.0.1").as_slice())
}


// ---------------------------------------------------------------------------------------
// Emptying the tile cache
// ---------------------------------------------------------------------------------------

/// Entries in the order the cache is emptied: oldest first, and in listing order among those
/// of one instant.
pub open spec fn by_age(modified: Seq<u128>, order: Seq<usize>) -> bool {
    forall|a: int, b: int|
        0 <= a < b < order.len() ==> (modified[#[trigger] order[a] as int] < modified[#[trigger] order[b] as int]
            || (modified[order[a] as int] == modified[order[b] as int] && order[a] < order[b]))
}

/// The order the tile cache is emptied in, given each file's modification instant: every file
/// once, oldest first, ties in listing order.
pub fn eviction_order(modified: &Vec<u128>) -> (order: Vec<usize>)
    ensures
        order@.len() == modified@.len(),
        forall|a: int| 0 <= a < order@.len() ==> #[trigger] order@[a] < modified@.len(),
        by_age(modified@, order@),
{
    let mut order: Vec<usize> = Vec::new();
    let mut i: usize = 0;
    while i < modified.len()
        invariant
            i <= modified@.len(),
            order@.len() == i,
            forall|a: int| 0 <= a < order@.len() ==> #[trigger] order@[a] < i,
            by_age(modified@, order@),
        decreases modified.len() - i,
    {
        let ghost o = order@;
        let mut p: usize = 0;
        while p < order.len() && modified[order[p]] <= modified[i]
            invariant
                p <= order@.len(),
                o == order@,
                i < modified@.len(),
                forall|a: int| 0 <= a < order@.len() ==> #[trigger] order@[a] < i,
                forall|a: int| 0 <= a < p ==> modified@[#[trigger] o[a] as int] <= modified@[i as int],
            decreases order.len() - p,
        {
            p = p + 1;
        }
        order.insert(p, i);
        proof {
            let t = order@;
            assert(t =~= o.insert(p as int, i));
            assert forall|a: int, b: int| 0 <= a < b < t.len() implies (modified@[#[trigger] t[a] as int]
                < modified@[#[trigger] t[b] as int] || (modified@[t[a] as int] == modified@[t[b] as int] && t[a]
                < t[b])) by {
                if b < p {
                    assert(t[a] == o[a] && t[b] == o[b]);
                } else if b == p {
                    assert(t[a] == o[a] && t[b] == i);
                } else if a < p {
                    assert(t[a] == o[a] && t[b] == o[b - 1]);
                } else if a == p {
                    assert(t[a] == i && t[b] == o[b - 1]);
                    assert(modified@[o[p as int] as int] > modified@[i as int]);
                    if b - 1 > p {
                        assert(modified@[o[p as int] as int] <= modified@[o[b - 1] as int]);
                    }
                } else {
                    assert(t[a] == o[a - 1] && t[b] == o[b - 1]);
                }
            }
        }
        i = i + 1;
    }
    order
}

/// Whether the cache still holds more than it may, so the next oldest file goes.
pub fn over_budget(total: u64, max_bytes: u64) -> (b: bool)
    ensures
        b == (total > max_bytes),
{
    total > max_bytes
}

// ---------------------------------------------------------------------------------------
// Which tiles are served
// ---------------------------------------------------------------------------------------

/// The value of a string of decimal digits.
pub open spec fn digits_value(s: Seq<char>) -> nat
    decreases s.len(),
{
    if s.len() == 0 {
        0
    } else {
        digits_value(s.drop_last()) * 10 + ((s.last() as u32) - 48) as nat
    }
}

/// A number's text without the `+` it may start with.
pub open spec fn sign_stripped(s: Seq<char>) -> Seq<char> {
    if s.len() > 0 && s[0] == '+' {
        s.drop_first()
    } else {
        s
    }
}

pub open spec fn all_digits(d: Seq<char>) -> bool {
    forall|i: int| 0 <= i < d.len() ==> is_digit(#[trigger] d[i])
}

/// `str::parse` of an unsigned integer no larger than `max`: an optional `+`, then one digit
/// or more, nothing else.
pub open spec fn parsed_unsigned(s: Seq<char>, max: nat) -> Option<nat> {
    let d = sign_stripped(s);
    if d.len() == 0 || !all_digits(d) {
        None
    } else if digits_value(d) > max {
        None
    } else {
        Some(digits_value(d))
    }
}

proof fn lemma_digits_grow(s: Seq<char>, i: int, j: int)
    requires
        0 <= i <= j <= s.len(),
        forall|k: int| 0 <= k < s.len() ==> is_digit(#[trigger] s[k]),
    ensures
        digits_value(s.subrange(0, i)) <= digits_value(s.subrange(0, j)),
    decreases j - i,
{
    if i < j {
        lemma_digits_grow(s, i, j - 1);
        assert(s.subrange(0, j).drop_last() =~= s.subrange(0, j - 1));
    }
}

/// Parses an unsigned integer no larger than `max`, as `str::parse` does.
fn parse_unsigned(s: &[char], max: u64) -> (r: Option<u64>)
    requires
        max <= 0xffff_ffff,
    ensures
        match r {
            Some(v) => parsed_unsigned(s@, max as nat) == Some(v as nat),
            None => parsed_unsigned(s@, max as nat) is None,
        },
{
    let d = if s.len() > 0 && s[0] == '+' {
        slice_of(s, 1, s.len())
    } else {
        slice_of(s, 0, s.len())
    };
    assert(s@.subrange(0, s@.len() as int) =~= s@);
    if s.len() > 0 && s[0] == '+' {
        assert(d@ =~= s@.drop_first());
    }
    if d.len() == 0 {
        return None;
    }
    let mut j: usize = 0;
    while j < d.len()
        invariant
            j <= d@.len(),
            d@ == sign_stripped(s@),
            forall|k: int| 0 <= k < j ==> is_digit(#[trigger] d@[k]),
        decreases d.len() - j,
    {
        if !digit(d[j]) {
            assert(!is_digit(d@[j as int]));
            assert(!all_digits(d@));
            return None;
        }
        j = j + 1;
    }
    let mut v: u64 = 0;
    let mut i: usize = 0;
    assert(d@.subrange(0, 0) =~= Seq::<char>::empty());
    while i < d.len()
        invariant
            i <= d@.len(),
            d@ == sign_stripped(s@),
            max <= 0xffff_ffff,
            forall|k: int| 0 <= k < d@.len() ==> is_digit(#[trigger] d@[k]),
            v as nat == digits_value(d@.subrange(0, i as int)),
            v <= max,
        decreases d.len() - i,
    {
        assert(d@.subrange(0, i + 1).drop_last() =~= d@.subrange(0, i as int));
        let c = d[i];
        assert(is_digit(c));
        let digit_value = (c as u32 - 48) as u64;
        let next = v * 10 + digit_value;
        if next > max {
            proof {
                lemma_digits_grow(d@, i + 1, d@.len() as int);
                assert(d@.subrange(0, d@.len() as int) =~= d@);
            }
            return None;
        }
        v = next;
        i = i + 1;
    }
    assert(d@.subrange(0, d@.len() as int) =~= d@);
    Some(v)
}

/// A tile request the route serves.
#[derive(Debug)]
pub struct Tile {
    pub z: u8,
    pub x: u32,
    pub y: u32,
    /// `png`, `jpg` or `jpeg`.
    pub ext: String,
}

/// The `y` and the extension of a tile's last segment: split at the first `.`, `png` when
/// there is none.
pub open spec fn tile_parts(tile: Seq<char>) -> (Seq<char>, Seq<char>) {
    let k = first_index(tile, '.');
    if k >= 0 {
        (tile.subrange(0, k), tile.subrange(k + 1, tile.len() as int))
    } else {
        (tile, "png"@)
    }
}

pub open spec fn served_ext(ext: Seq<char>) -> bool {
    ext == "png"@ || ext == "jpg"@ || ext == "jpeg"@
}

pub open spec fn pow2(n: nat) -> nat
    decreases n,
{
    if n == 0 {
        1
    } else {
        2 * pow2((n - 1) as nat)
    }
}

/// Which tile a request names, or the detail of why it is refused (each refusal is a 400):
/// the zoom, x and y must parse, the extension be `png`, `jpg` or `jpeg`, the zoom be at most
/// the configured maximum, and x and y inside the `2^z` tiles of that zoom.
pub open spec fn tile_verdict(max_zoom: u8, z: Seq<char>, x: Seq<char>, tile: Seq<char>) -> Result<(nat, nat, nat, Seq<char>), Seq<char>> {
    let (y, ext) = tile_parts(tile);
    match parsed_unsigned(z, 255) {
        None => Err("invalid zoom level: "@ + z),
        Some(zv) => match parsed_unsigned(x, 0xffff_ffff) {
            None => Err("invalid tile x coordinate: "@ + x),
            Some(xv) => match parsed_unsigned(y, 0xffff_ffff) {
                None => Err("invalid tile y coordinate: "@ + y),
                Some(yv) => if !served_ext(ext) {
                    Err("unsupported tile extension: "@ + ext)
                } else if zv > max_zoom {
                    Err("zoom level "@ + decimal(zv) + " exceeds maximum zoom "@ + decimal(
                        max_zoom as nat,
                    ))
                } else if xv >= pow2(zv) || yv >= pow2(zv) {
                    Err("coordinates ("@ + decimal(xv) + ", "@ + decimal(yv)
                        + ") out of range for zoom level "@ + decimal(zv) + " (max "@ + decimal(
                        pow2(zv),
                    ) + ")"@)
                } else {
                    Ok((zv, xv, yv, ext))
                },
            },
        },
    }
}

fn detail(head: &str, value: &[char]) -> (s: String)
    ensures
        s@ == head@ + value@,
{
    let mut m = chars_of(head);
    append_chars(&mut m, value);
    string_of(m.as_slice())
}

/// Which tile a request names, or the detail of its 400 answer. The configured maximum zoom
/// stays below 64, the zooms whose `2^z` tiles a `u64` counts.
pub fn parse_tile(max_zoom: u8, z: &str, x: &str, tile: &str) -> (r: Result<Tile, String>)
    requires
        max_zoom < 64,
    ensures
        match (r, tile_verdict(max_zoom, z@, x@, tile@)) {
            (Ok(t), Ok((zv, xv, yv, ext))) => t.z as nat == zv && t.x as nat == xv && t.y as nat
                == yv && t.ext@ == ext,
            (Err(m), Err(e)) => m@ == e,
            _ => false,
        },
{
    let zc = chars_of(z);
    let zv = match parse_unsigned(zc.as_slice(), 255) {
        Some(v) => v,
        None => return Err(detail("invalid zoom level: ", zc.as_slice())),
    };
    let xc = chars_of(x);
    let xv = match parse_unsigned(xc.as_slice(), 0xffff_ffff) {
        Some(v) => v,
        None => return Err(detail("invalid tile x coordinate: ", xc.as_slice())),
    };
    let tc = chars_of(tile);
    proof {
        lemma_first_index(tc@, '.');
    }
    let (yc, ext) = match find_first(tc.as_slice(), '.') {
        Some(k) => {
            let n = tc.len();
            let after = k + 1;
            (slice_of(tc.as_slice(), 0, k), slice_of(tc.as_slice(), after, n))
        },
        None => (tc.clone(), chars_of("png")),
    };
    let yv = match parse_unsigned(yc.as_slice(), 0xffff_ffff) {
        Some(v) => v,
        None => return Err(detail("invalid tile y coordinate: ", yc.as_slice())),
    };
    let es = ext.as_slice();
    if !(seq_eq(es, chars_of("png").as_slice()) || seq_eq(es, chars_of("jpg").as_slice())
        || seq_eq(es, chars_of("jpeg").as_slice())) {
        return Err(detail("unsupported tile extension: ", es));
    }
    let zoom = zv as u8;
    if zoom > max_zoom {
        let mut m = chars_of("zoom level ");
        append_chars(&mut m, decimal_of(zv).as_slice());
        append_str(&mut m, " exceeds maximum zoom ");
        append_chars(&mut m, decimal_of(max_zoom as u64).as_slice());
        return Err(string_of(m.as_slice()));
    }
    let limit = tiles_at(zoom);
    if xv >= limit || yv >= limit {
        let mut m = chars_of("coordinates (");
        append_chars(&mut m, decimal_of(xv).as_slice());
        append_str(&mut m, ", ");
        append_chars(&mut m, decimal_of(yv).as_slice());
        append_str(&mut m, ") out of range for zoom level ");
        append_chars(&mut m, decimal_of(zv).as_slice());
        append_str(&mut m, " (max ");
        append_chars(&mut m, decimal_of(limit).as_slice());
        append_str(&mut m, ")");
        return Err(string_of(m.as_slice()));
    }
    Ok(Tile { z: zoom, x: xv as u32, y: yv as u32, ext: string_of(es) })
}

/// `1u64 << z`: the tiles along one side at zoom `z`.
fn tiles_at(z: u8) -> (n: u64)
    requires
        z < 64,
    ensures
        n as nat == pow2(z as nat),
{
    let mut n: u64 = 1;
    let mut i: u8 = 0;
    while i < z
        invariant
            i <= z < 64,
            n as nat == pow2(i as nat),
            n <= 0x8000_0000_0000_0000,
        decreases z - i,
    {
        proof {
            lemma_pow2_split(i as nat);
        }
        n = n * 2;
        i = i + 1;
    }
    n
}

proof fn lemma_pow2_split(i: nat)
    requires
        i < 63,
    ensures
        pow2(i + 1) <= 0x8000_0000_0000_0000,
{
    lemma_pow2_le(i + 1, 63);
    assert(pow2(63) == 0x8000_0000_0000_0000) by {
        reveal_with_fuel(pow2, 64);
    }
}

proof fn lemma_pow2_le(a: nat, b: nat)
    requires
        a <= b,
    ensures
        pow2(a) <= pow2(b),
    decreases b,
{
    if a < b {
        lemma_pow2_le(a, (b - 1) as nat);
    }
}

/// The file a tile is cached under.
pub open spec fn cache_key_of(z: nat, x: nat, y: nat, ext: Seq<char>) -> Seq<char> {
    "default_"@ + decimal(z) + "_"@ + decimal(x) + "_"@ + decimal(y) + "."@ + ext
}

pub fn cache_key(tile: &Tile) -> (k: String)
    ensures
        k@ == cache_key_of(tile.z as nat, tile.x as nat, tile.y as nat, tile.ext@),
{
    let mut m = chars_of("default_");
    append_chars(&mut m, decimal_of(tile.z as u64).as_slice());
    append_str(&mut m, "_");
    append_chars(&mut m, decimal_of(tile.x as u64).as_slice());
    append_str(&mut m, "_");
    append_chars(&mut m, decimal_of(tile.y as u64).as_slice());
    append_str(&mut m, ".");
    append_str(&mut m, tile.ext.as_str());
    string_of(m.as_slice())
}

/// The media type a cached tile is served with.
pub fn cached_media_type(ext: &str) -> (t: &'static str)
    ensures
        t@ == if ext@ == "jpg"@ || ext@ == "jpeg"@ {
            "image/jpeg"@
        } else {
            "image/png"@
        },
{
    if str_eq(ext, "jpg") || str_eq(ext, "jpeg") {
        "image/jpeg"
    } else {
        "image/png"
    }
}

// ---------------------------------------------------------------------------------------
// Upstream
// ---------------------------------------------------------------------------------------

/// The upstream address of a tile: the template with each placeholder replaced, in the order
/// `{z}`, `{x}`, `{y}`, `{ext}`, `{key}` (an absent key is empty).
pub open spec fn upstream_of(template: Seq<char>, key: Option<Seq<char>>, z: nat, x: nat, y: nat, ext: Seq<char>) -> Seq<char> {
    let k = match key {
        Some(k) => k,
        None => Seq::empty(),
    };
    replaced(
        replaced(
            replaced(replaced(replaced(template, "{z}"@, decimal(z)), "{x}"@, decimal(x)), "{y}"@, decimal(y)),
            "{ext}"@,
            ext,
        ),
        "{key}"@,
        k,
    )
}

/// The upstream is reached over `https`, or over `http` where the configuration allows it.
pub open spec fn scheme_allowed(url: Seq<char>, allow_http: bool) -> bool {
    starts_with(url, "https://"@) || (allow_http && starts_with(url, "http://"@))
}

/// The upstream address a tile is fetched from, or the detail of the 502 that refuses it.
pub fn upstream_url(basemap: &Basemap, tile: &Tile) -> (r: Result<String, String>)
    ensures
        ({
            let u = upstream_of(
                basemap.url_template@,
                match basemap.key {
                    Some(k) => Some(k@),
                    None => None,
                },
                tile.z as nat,
                tile.x as nat,
                tile.y as nat,
                tile.ext@,
            );
            match r {
                Ok(s) => scheme_allowed(u, basemap.allow_http) && s@ == u,
                Err(m) => !scheme_allowed(u, basemap.allow_http) && m@
                    == "upstream URL scheme must be https"@,
            }
        }),
{
    proof {
        reveal_strlit("{z}");
        reveal_strlit("{x}");
        reveal_strlit("{y}");
        reveal_strlit("{ext}");
        reveal_strlit("{key}");
    }
    let t = chars_of(basemap.url_template.as_str());
    let u1 = replace_all(t.as_slice(), chars_of("{z}").as_slice(), decimal_of(tile.z as u64).as_slice());
    let u2 = replace_all(u1.as_slice(), chars_of("{x}").as_slice(), decimal_of(tile.x as u64).as_slice());
    let u3 = replace_all(u2.as_slice(), chars_of("{y}").as_slice(), decimal_of(tile.y as u64).as_slice());
    let u4 = replace_all(u3.as_slice(), chars_of("{ext}").as_slice(), chars_of(tile.ext.as_str()).as_slice());
    let key = match &basemap.key {
        Some(k) => chars_of(k.as_str()),
        None => Vec::new(),
    };
    let u5 = replace_all(u4.as_slice(), chars_of("{key}").as_slice(), key.as_slice());
    let https = has_prefix(u5.as_slice(), chars_of("https://").as_slice());
    let http = basemap.allow_http && has_prefix(u5.as_slice(), chars_of("http://").as_slice());
    if !https && !http {
        return Err(string_of(chars_of("upstream URL scheme must be https").as_slice()));
    }
    Ok(string_of(u5.as_slice()))
}

/// What an upstream answer with this media type (lower-cased) and this many bytes is passed on
/// as: a PNG or JPEG image of at most 1 MiB, or the detail of the 502 that refuses it.
pub open spec fn upstream_verdict(content_type: Seq<char>, len: nat) -> Result<Seq<char>, Seq<char>> {
    let lower = lowercase(content_type);
    if !(starts_with(lower, "image/png"@) || starts_with(lower, "image/jpeg"@)) {
        Err("upstream returned non-image content: "@ + lower)
    } else if len > 1024 * 1024 {
        Err("upstream tile exceeds 1 MiB limit"@)
    } else if starts_with(lower, "image/jpeg"@) {
        Ok("image/jpeg"@)
    } else {
        Ok("image/png"@)
    }
}

pub fn check_upstream(content_type: &str, len: usize) -> (r: Result<&'static str, String>)
    ensures
        match (r, upstream_verdict(content_type@, len as nat)) {
            (Ok(t), Ok(u)) => t@ == u,
            (Err(m), Err(e)) => m@ == e,
            _ => false,
        },
{
    let lower = to_lowercase(content_type);
    let l = chars_of(lower.as_str());
    let png = has_prefix(l.as_slice(), chars_of("image/png").as_slice());
    let jpeg = has_prefix(l.as_slice(), chars_of("image/jpeg").as_slice());
    if !png && !jpeg {
        let mut m = chars_of("upstream returned non-image content: ");
        append_chars(&mut m, l.as_slice());
        return Err(string_of(m.as_slice()));
    }
    if len > 1024 * 1024 {
        return Err(string_of(chars_of("upstream tile exceeds 1 MiB limit").as_slice()));
    }
    if jpeg {
        Ok("image/jpeg")
    } else {
        Ok("image/png")
    }
}


/// A tile that is served lies on the map: its zoom is at most the configured maximum, its x and
/// y inside the `2^z` tiles of that zoom, and its extension `png`, `jpg` or `jpeg`.
pub proof fn served_tiles_lie_on_the_map(max_zoom: u8, z: Seq<char>, x: Seq<char>, tile: Seq<char>)
    ensures
        tile_verdict(max_zoom, z, x, tile) matches Ok((zv, xv, yv, ext)) ==> {
            &&& zv <= max_zoom
            &&& xv < pow2(zv)
            &&& yv < pow2(zv)
            &&& served_ext(ext)
        },
{
}

} // verus!
