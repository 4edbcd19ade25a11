//! The line-based control protocol of the live window: one command per line,
//! answered by `ok`, `error: <message>` or, for queries, the data itself.
//!
//! A number argument is checked against the grammar that `f32::from_str`
//! accepts and kept as its text; the value itself is read by the caller.
use vstd::prelude::*;
use vstd::string::*;
use crate::dsp::{BandAggregation, Transform, Weighting, WindowFunction};
use crate::numbers::{is_index_permutation, law_sort_order, law_sorted_input_kept, num_order, sort_order, stable_order};
use crate::text::{
    pieces, pieces_chars, words, words_chars,
    chars_eq_str, chars_of, to_lower, lowercase_chars, number_text, is_number_text, push_chars, push_str, split_once_ws,
    split_once_ws_chars, string_from_chars, trim, trim_chars,
};

verus! {

/// A `Result` with its error text taken as characters.
pub open spec fn result_view<T>(r: Result<T, String>) -> Result<T, Seq<char>> {
    match r {
        Ok(v) => Ok(v),
        Err(e) => Err(e@),
    }
}

/// `Err` carrying the given characters as a `String`.
fn err_of<T>(msg: Vec<char>) -> (r: Result<T, String>)
    ensures
        r matches Err(e) && e@ == msg@,
{
    Err(string_from_chars(msg.as_slice()))
}

/// `Err` carrying the given text.
fn err_str<T>(msg: &str) -> (r: Result<T, String>)
    ensures
        r matches Err(e) && e@ == msg@,
{
    Err(String::from_str(msg))
}

/// `prefix + middle + suffix` as characters.
fn quoted(prefix: &str, middle: &[char], suffix: &str) -> (r: Vec<char>)
    ensures
        r@ == prefix@ + middle@ + suffix@,
{
    let mut v: Vec<char> = Vec::new();
    push_str(&mut v, prefix);
    push_chars(&mut v, middle);
    push_str(&mut v, suffix);
    proof {
        assert(v@ =~= prefix@ + middle@ + suffix@);
    }
    v
}

/// A boolean word: `true`, `1`, `on` or `false`, `0`, `off` (given in lower
/// case); anything else is refused with a message that quotes the text `s`
/// as given.
pub open spec fn spec_bool_word(l: Seq<char>, s: Seq<char>) -> Result<bool, Seq<char>> {
    if l == "true"@ || l == "1"@ || l == "on"@ {
        Ok(true)
    } else if l == "false"@ || l == "0"@ || l == "off"@ {
        Ok(false)
    } else {
        Err("expected true/false, got '"@ + s + "'"@)
    }
}

/// Reads a boolean word from its lower-case form `lower`; `given` is the
/// text as it came, quoted in the error.
pub fn bool_from_lowercase(lower: &[char], given: &[char]) -> (r: Result<bool, String>)
    ensures
        result_view(r) == spec_bool_word(lower@, given@),
{
    if chars_eq_str(lower, "true") || chars_eq_str(lower, "1") || chars_eq_str(lower, "on") {
        Ok(true)
    } else if chars_eq_str(lower, "false") || chars_eq_str(lower, "0") || chars_eq_str(lower, "off") {
        Ok(false)
    } else {
        err_of(quoted("expected true/false, got '", given, "'"))
    }
}

fn parse_bool_chars(s: &[char]) -> (r: Result<bool, String>)
    ensures
        result_view(r) == spec_bool_word(to_lower(s@), s@),
{
    let l = lowercase_chars(s);
    bool_from_lowercase(l.as_slice(), s)
}

/// Reads `true`/`1`/`on` or `false`/`0`/`off`, in any case.
pub fn parse_bool(s: &str) -> (r: Result<bool, String>)
    ensures
        result_view(r) == spec_bool_word(to_lower(s@), s@),
{
    let c = chars_of(s);
    parse_bool_chars(c.as_slice())
}

/// The DSP parameters that `set <param> <value>` adjusts.
#[derive(Clone, Copy, Debug, PartialEq, Eq, Structural)]
pub enum DspSlider {
    WindowSize,
    HopSize,
    LogBins,
    FMin,
    FMax,
    DbFloor,
    DbCeil,
    Smoothing,
    Gamma,
    TemporalAlpha,
    PeakDecay,
    CqtBins,
    FreqScaleExp,
    History,
}

/// The parameter named by a lower-case name, if any.
pub open spec fn spec_slider_name(l: Seq<char>) -> Option<DspSlider> {
    if l == "fft-size"@ || l == "window-size"@ {
        Some(DspSlider::WindowSize)
    } else if l == "hop"@ {
        Some(DspSlider::HopSize)
    } else if l == "log-bins"@ {
        Some(DspSlider::LogBins)
    } else if l == "f-min"@ {
        Some(DspSlider::FMin)
    } else if l == "f-max"@ {
        Some(DspSlider::FMax)
    } else if l == "db-floor"@ {
        Some(DspSlider::DbFloor)
    } else if l == "db-ceil"@ {
        Some(DspSlider::DbCeil)
    } else if l == "smoothing"@ {
        Some(DspSlider::Smoothing)
    } else if l == "gamma"@ {
        Some(DspSlider::Gamma)
    } else if l == "temporal-alpha"@ {
        Some(DspSlider::TemporalAlpha)
    } else if l == "peak-decay"@ {
        Some(DspSlider::PeakDecay)
    } else if l == "cqt-bins"@ {
        Some(DspSlider::CqtBins)
    } else if l == "freq-scale-exp"@ {
        Some(DspSlider::FreqScaleExp)
    } else if l == "history"@ {
        Some(DspSlider::History)
    } else {
        None
    }
}

/// The answer to a parameter name `s` whose lower-case form is `l`.
pub open spec fn spec_slider(l: Seq<char>, s: Seq<char>) -> Result<DspSlider, Seq<char>> {
    match spec_slider_name(l) {
        Some(d) => Ok(d),
        None => Err("unknown parameter '"@ + s
            + "'. Available: fft-size, hop, log-bins, f-min, f-max, db-floor, db-ceil, smoothing, gamma, temporal-alpha, peak-decay, cqt-bins, freq-scale-exp, history"@),
    }
}

/// The parameter named by a lower-case name.
pub fn slider_from_lowercase(l: &[char]) -> (r: Option<DspSlider>)
    ensures
        r == spec_slider_name(l@),
{
    if chars_eq_str(l, "fft-size") || chars_eq_str(l, "window-size") {
        Some(DspSlider::WindowSize)
    } else if chars_eq_str(l, "hop") {
        Some(DspSlider::HopSize)
    } else if chars_eq_str(l, "log-bins") {
        Some(DspSlider::LogBins)
    } else if chars_eq_str(l, "f-min") {
        Some(DspSlider::FMin)
    } else if chars_eq_str(l, "f-max") {
        Some(DspSlider::FMax)
    } else if chars_eq_str(l, "db-floor") {
        Some(DspSlider::DbFloor)
    } else if chars_eq_str(l, "db-ceil") {
        Some(DspSlider::DbCeil)
    } else if chars_eq_str(l, "smoothing") {
        Some(DspSlider::Smoothing)
    } else if chars_eq_str(l, "gamma") {
        Some(DspSlider::Gamma)
    } else if chars_eq_str(l, "temporal-alpha") {
        Some(DspSlider::TemporalAlpha)
    } else if chars_eq_str(l, "peak-decay") {
        Some(DspSlider::PeakDecay)
    } else if chars_eq_str(l, "cqt-bins") {
        Some(DspSlider::CqtBins)
    } else if chars_eq_str(l, "freq-scale-exp") {
        Some(DspSlider::FreqScaleExp)
    } else if chars_eq_str(l, "history") {
        Some(DspSlider::History)
    } else {
        None
    }
}

fn parse_slider_chars(name: &[char]) -> (r: Result<DspSlider, String>)
    ensures
        result_view(r) == spec_slider(to_lower(name@), name@),
{
    let l = lowercase_chars(name);
    match slider_from_lowercase(l.as_slice()) {
        Some(d) => Ok(d),
        None => err_of(
            quoted(
                "unknown parameter '",
                name,
                "'. Available: fft-size, hop, log-bins, f-min, f-max, db-floor, db-ceil, smoothing, gamma, temporal-alpha, peak-decay, cqt-bins, freq-scale-exp, history",
            ),
        ),
    }
}

/// The DSP parameter with the given name, in any case (`fft-size` and
/// `window-size` both name the window size).
pub fn parse_slider(name: &str) -> (r: Result<DspSlider, String>)
    ensures
        result_view(r) == spec_slider(to_lower(name@), name@),
{
    let c = chars_of(name);
    parse_slider_chars(c.as_slice())
}

/// One colour stop: position, red, green and blue, each the text of a
/// number.
#[derive(Debug)]
pub struct StopText {
    pub pos: String,
    pub red: String,
    pub green: String,
    pub blue: String,
}

/// A colour-stop list: at least two stops, and the last `light-contrast`
/// and `chroma-scale` values given, each the text of a number.
#[derive(Debug)]
pub struct StopList {
    pub stops: Vec<StopText>,
    pub light_contrast: Option<String>,
    pub chroma_scale: Option<String>,
}

pub struct StopListView {
    pub stops: Seq<(Seq<char>, Seq<char>, Seq<char>, Seq<char>)>,
    pub light_contrast: Option<Seq<char>>,
    pub chroma_scale: Option<Seq<char>>,
}

pub open spec fn opt_view(o: Option<String>) -> Option<Seq<char>> {
    match o {
        Some(v) => Some(v@),
        None => None,
    }
}

impl View for StopList {
    type V = StopListView;

    open spec fn view(&self) -> StopListView {
        StopListView {
            stops: self.stops@.map_values(|t: StopText| (t.pos@, t.red@, t.green@, t.blue@)),
            light_contrast: opt_view(self.light_contrast),
            chroma_scale: opt_view(self.chroma_scale),
        }
    }
}

/// Reads the tokens `tw[i..]` of a colour-stop list after `acc` was read:
/// `light-contrast` and `chroma-scale` (any case) take the next token as a
/// number; any other token must be four comma-separated numbers
/// (position, red, green, blue); at the end at least two stops are needed.
/// The first problem met, in token order, is the answer.
pub open spec fn scan_stops_from(tw: Seq<Seq<char>>, i: int, acc: StopListView) -> Result<StopListView, Seq<char>>
    decreases tw.len() - i,
{
    if i < 0 || i >= tw.len() {
        if acc.stops.len() < 2 {
            Err("need at least 2 stops"@)
        } else {
            Ok(acc)
        }
    } else {
        let t = tw[i];
        let l = to_lower(t);
        if l == "light-contrast"@ {
            if i + 1 >= tw.len() {
                Err("expected value after 'light-contrast'"@)
            } else if !is_number_text(tw[i + 1]) {
                Err("bad light-contrast value '"@ + tw[i + 1] + "'"@)
            } else {
                scan_stops_from(tw, i + 2, StopListView { light_contrast: Some(tw[i + 1]), ..acc })
            }
        } else if l == "chroma-scale"@ {
            if i + 1 >= tw.len() {
                Err("expected value after 'chroma-scale'"@)
            } else if !is_number_text(tw[i + 1]) {
                Err("bad chroma-scale value '"@ + tw[i + 1] + "'"@)
            } else {
                scan_stops_from(tw, i + 2, StopListView { chroma_scale: Some(tw[i + 1]), ..acc })
            }
        } else {
            let parts = pieces(t, ',');
            if parts.len() != 4 {
                Err("expected pos,r,g,b \u{2014} got '"@ + t + "'"@)
            } else {
                let p0 = trim(parts[0]);
                let p1 = trim(parts[1]);
                let p2 = trim(parts[2]);
                let p3 = trim(parts[3]);
                if !is_number_text(p0) {
                    Err("bad position in '"@ + t + "'"@)
                } else if !is_number_text(p1) {
                    Err("bad red in '"@ + t + "'"@)
                } else if !is_number_text(p2) {
                    Err("bad green in '"@ + t + "'"@)
                } else if !is_number_text(p3) {
                    Err("bad blue in '"@ + t + "'"@)
                } else {
                    scan_stops_from(tw, i + 1, StopListView { stops: acc.stops.push((p0, p1, p2, p3)), ..acc })
                }
            }
        }
    }
}

/// The stops and values of a whole colour-stop list, stops in the order
/// given.
pub open spec fn spec_scan_stops(s: Seq<char>) -> Result<StopListView, Seq<char>> {
    scan_stops_from(words(s), 0, StopListView { stops: Seq::empty(), light_contrast: None, chroma_scale: None })
}

/// The position texts of the stops.
pub open spec fn stop_positions(stops: Seq<(Seq<char>, Seq<char>, Seq<char>, Seq<char>)>) -> Seq<Seq<char>> {
    stops.map_values(|t: (Seq<char>, Seq<char>, Seq<char>, Seq<char>)| t.0)
}

/// The stops ordered by position; stops at equal positions keep their
/// order.
pub open spec fn sort_stops(stops: Seq<(Seq<char>, Seq<char>, Seq<char>, Seq<char>)>) -> Seq<
    (Seq<char>, Seq<char>, Seq<char>, Seq<char>),
> {
    let o = sort_order(stop_positions(stops), stops.len() as int);
    Seq::new(stops.len(), |i: int| stops[o[i]])
}

/// The reading of a whole colour-stop list: the scanned stops, ordered by
/// position.
pub open spec fn spec_parse_stops(s: Seq<char>) -> Result<StopListView, Seq<char>> {
    match spec_scan_stops(s) {
        Ok(l) => Ok(StopListView { stops: sort_stops(l.stops), ..l }),
        Err(e) => Err(e),
    }
}

/// A read colour-stop list holds the scanned stops, each once, ordered by
/// position (by number, see `num_order`), stops at equal positions in the
/// order given; a list that cannot be read gives the scanning error.
pub proof fn law_parsed_stops_ordered(s: Seq<char>)
    ensures
        match (spec_scan_stops(s), spec_parse_stops(s)) {
            (Ok(a), Ok(b)) => {
                let o = sort_order(stop_positions(a.stops), a.stops.len() as int);
                &&& is_index_permutation(o, a.stops.len() as int)
                &&& b.stops.len() == a.stops.len()
                &&& forall|i: int| 0 <= i < b.stops.len() ==> #[trigger] b.stops[i] == a.stops[o[i]]
                &&& forall|i: int, j: int|
                    #![trigger b.stops[i], b.stops[j]]
                    0 <= i < j < b.stops.len() ==> num_order(b.stops[i].0, b.stops[j].0) < 0 || (num_order(
                        b.stops[i].0,
                        b.stops[j].0,
                    ) == 0 && o[i] < o[j])
                &&& b.light_contrast == a.light_contrast
                &&& b.chroma_scale == a.chroma_scale
            },
            (Err(e), Err(f)) => e == f,
            _ => false,
        },
{
    if let Ok(a) = spec_scan_stops(s) {
        let ps = stop_positions(a.stops);
        let n = a.stops.len() as int;
        law_sort_order(ps, n);
        let o = sort_order(ps, n);
        let b = sort_stops(a.stops);
        assert forall|i: int, j: int| #![trigger b[i], b[j]] 0 <= i < j < b.len() implies num_order(b[i].0, b[j].0) < 0
            || (num_order(b[i].0, b[j].0) == 0 && o[i] < o[j]) by {
            assert(o[i] < n && o[j] < n && 0 <= o[i] && 0 <= o[j]);
            assert(ps[o[i]] == b[i].0 && ps[o[j]] == b[j].0);
        }
    }
}

pub open spec fn stops_view(r: Result<StopList, String>) -> Result<StopListView, Seq<char>> {
    match r {
        Ok(l) => Ok(l@),
        Err(e) => Err(e@),
    }
}

/// A list whose stops are already in order of position (each at most the
/// next, see `law_num_order_is_value_order`) is read as given.
pub proof fn law_ordered_stops_kept(s: Seq<char>)
    ensures
        match spec_scan_stops(s) {
            Ok(a) => (forall|i: int|
                #![trigger a.stops[i], a.stops[i + 1]]
                0 <= i < a.stops.len() - 1 ==> num_order(a.stops[i].0, a.stops[i + 1].0) <= 0) ==> spec_parse_stops(s)
                == Ok::<StopListView, Seq<char>>(a),
            Err(_) => true,
        },
{
    if let Ok(a) = spec_scan_stops(s) {
        let n = a.stops.len() as int;
        let ps = stop_positions(a.stops);
        if forall|i: int|
            #![trigger a.stops[i], a.stops[i + 1]]
            0 <= i < n - 1 ==> num_order(a.stops[i].0, a.stops[i + 1].0) <= 0 {
            assert forall|i: int| #![trigger ps[i], ps[i + 1]] 0 <= i < n - 1 implies num_order(ps[i], ps[i + 1]) <= 0 by {
                assert(ps[i] == a.stops[i].0);
                assert(ps[i + 1] == a.stops[i + 1].0);
            }
            law_sorted_input_kept(ps, n);
            assert(sort_stops(a.stops) =~= a.stops);
        }
    }
}

/// Reads a colour-stop list: white-space separated tokens, each a
/// `pos,r,g,b` stop or one of the keywords `light-contrast` and
/// `chroma-scale` (any case) followed by a value. All of them must be
/// numbers; at least two stops are needed.
pub fn parse_stops(s: &[char]) -> (r: Result<StopList, String>)
    ensures
        stops_view(r) == spec_parse_stops(s@),
{
    let tw = words_chars(s);
    let ghost tws = words(s@);
    let mut list = StopList { stops: Vec::new(), light_contrast: None, chroma_scale: None };
    let mut i: usize = 0;
    let n = tw.len();
    proof {
        assert(list@.stops =~= Seq::<(Seq<char>, Seq<char>, Seq<char>, Seq<char>)>::empty());
    }
    while i < n
        invariant
            n == tw@.len(),
            tws.len() == n,
            forall|k: int| #![trigger tw@[k]] 0 <= k < n ==> tw@[k]@ == tws[k],
            i <= n,
            spec_scan_stops(s@) == scan_stops_from(tws, i as int, list@),
        decreases n - i,
    {
        let t = &tw[i];
        let l = lowercase_chars(t.as_slice());
        let light = chars_eq_str(l.as_slice(), "light-contrast");
        let chroma = chars_eq_str(l.as_slice(), "chroma-scale");
        if light || chroma {
            if i + 1 >= n {
                return if light {
                    err_str("expected value after 'light-contrast'")
                } else {
                    err_str("expected value after 'chroma-scale'")
                };
            }
            let vc = &tw[i + 1];
            if !number_text(vc.as_slice()) {
                return if light {
                    err_of(quoted("bad light-contrast value '", vc.as_slice(), "'"))
                } else {
                    err_of(quoted("bad chroma-scale value '", vc.as_slice(), "'"))
                };
            }
            let v = string_from_chars(vc.as_slice());
            if light {
                list.light_contrast = Some(v);
            } else {
                list.chroma_scale = Some(v);
            }
            i = i + 2;
        } else {
            let parts = pieces_chars(t.as_slice(), ',');
            if parts.len() != 4 {
                return err_of(quoted("expected pos,r,g,b \u{2014} got '", t.as_slice(), "'"));
            }
            let p0 = trim_chars(parts[0].as_slice());
            let p1 = trim_chars(parts[1].as_slice());
            let p2 = trim_chars(parts[2].as_slice());
            let p3 = trim_chars(parts[3].as_slice());
            if !number_text(p0.as_slice()) {
                return err_of(quoted("bad position in '", t.as_slice(), "'"));
            }
            if !number_text(p1.as_slice()) {
                return err_of(quoted("bad red in '", t.as_slice(), "'"));
            }
            if !number_text(p2.as_slice()) {
                return err_of(quoted("bad green in '", t.as_slice(), "'"));
            }
            if !number_text(p3.as_slice()) {
                return err_of(quoted("bad blue in '", t.as_slice(), "'"));
            }
            let ghost old_stops = list@.stops;
            let st = StopText {
                pos: string_from_chars(p0.as_slice()),
                red: string_from_chars(p1.as_slice()),
                green: string_from_chars(p2.as_slice()),
                blue: string_from_chars(p3.as_slice()),
            };
            list.stops.push(st);
            proof {
                assert(list@.stops =~= old_stops.push((p0@, p1@, p2@, p3@)));
            }
            i = i + 1;
        }
    }
    if list.stops.len() < 2 {
        err_str("need at least 2 stops")
    } else {
        Ok(order_stops(list))
    }
}

/// The list with its stops ordered by position (`sort_stops`).
fn order_stops(list: StopList) -> (r: StopList)
    ensures
        r@ == (StopListView { stops: sort_stops(list@.stops), ..list@ }),
{
    let ghost v = list@;
    let StopList { stops, light_contrast, chroma_scale } = list;
    let n = stops.len();
    proof {
        assert forall|q: int| 0 <= q < n implies #[trigger] v.stops[q] == (
            stops@[q].pos@,
            stops@[q].red@,
            stops@[q].green@,
            stops@[q].blue@,
        ) by {}
    }
    let mut pos: Vec<Vec<char>> = Vec::new();
    let mut k: usize = 0;
    while k < n
        invariant
            n == stops@.len(),
            v.stops.len() == n,
            k <= n,
            forall|q: int| 0 <= q < n ==> #[trigger] v.stops[q] == (
                stops@[q].pos@,
                stops@[q].red@,
                stops@[q].green@,
                stops@[q].blue@,
            ),
            pos@.len() == k,
            forall|q: int| 0 <= q < k ==> #[trigger] pos@[q]@ == v.stops[q].0,
        decreases n - k,
    {
        pos.push(chars_of(stops[k].pos.as_str()));
        k = k + 1;
    }
    let o = stable_order(&pos);
    let ghost ps = stop_positions(v.stops);
    let ghost so = sort_order(ps, n as int);
    proof {
        assert(pos@.map_values(|w: Vec<char>| w@) =~= ps);
        law_sort_order(ps, n as int);
    }
    let mut out: Vec<StopText> = Vec::new();
    let mut m: usize = 0;
    while m < n
        invariant
            n == stops@.len(),
            v.stops.len() == n,
            forall|q: int| 0 <= q < n ==> #[trigger] v.stops[q] == (
                stops@[q].pos@,
                stops@[q].red@,
                stops@[q].green@,
                stops@[q].blue@,
            ),
            o@.len() == n,
            so.len() == n,
            forall|q: int| 0 <= q < n ==> #[trigger] (o@[q] as int) == so[q],
            forall|q: int| 0 <= q < n ==> 0 <= #[trigger] so[q] < n,
            m <= n,
            out@.len() == m,
            forall|q: int| 0 <= q < m ==> #[trigger] v.stops[so[q]] == (
                out@[q].pos@,
                out@[q].red@,
                out@[q].green@,
                out@[q].blue@,
            ),
        decreases n - m,
    {
        let idx = o[m];
        proof {
            assert(so[m as int] == idx as int);
        }
        let t = &stops[idx];
        out.push(
            StopText { pos: t.pos.clone(), red: t.red.clone(), green: t.green.clone(), blue: t.blue.clone() },
        );
        proof {
            assert(v.stops[idx as int] == (t.pos@, t.red@, t.green@, t.blue@));
        }
        m = m + 1;
    }
    let r = StopList { stops: out, light_contrast, chroma_scale };
    proof {
        assert(r@.stops =~= sort_stops(v.stops));
    }
    r
}

/// A settings change requested over the control socket. Number-valued
/// changes carry the text of the number, which `parse_command` has checked
/// against the number grammar (`is_number_text`).
#[derive(Debug)]
pub enum SettingsMessage {
    SetColormap(String),
    SetColormapStops(String, StopList),
    SaveColormapStops(String, StopList),
    SetContrast(String),
    SetSaturation(String),
    SetOpacity(String),
    SetProfile(String),
    SetOverlay(String),
    SetSource(String),
    SetWindowFn(WindowFunction),
    SetWeighting(Weighting),
    SetTransform(Transform),
    SetBandAggregation(BandAggregation),
    SetCentered(bool),
    SetSharedBg(bool),
    SetAdditiveBlend(bool),
    AdvancedSlider(DspSlider, String),
    AdvancedSliderRelease(DspSlider),
    Toggle,
    Close,
}

/// A `SettingsMessage` with its texts as characters.
pub enum MessageView {
    SetColormap(Seq<char>),
    SetColormapStops(Seq<char>, StopListView),
    SaveColormapStops(Seq<char>, StopListView),
    SetContrast(Seq<char>),
    SetSaturation(Seq<char>),
    SetOpacity(Seq<char>),
    SetProfile(Seq<char>),
    SetOverlay(Seq<char>),
    SetSource(Seq<char>),
    SetWindowFn(WindowFunction),
    SetWeighting(Weighting),
    SetTransform(Transform),
    SetBandAggregation(BandAggregation),
    SetCentered(bool),
    SetSharedBg(bool),
    SetAdditiveBlend(bool),
    AdvancedSlider(DspSlider, Seq<char>),
    AdvancedSliderRelease(DspSlider),
    Toggle,
    Close,
}

impl View for SettingsMessage {
    type V = MessageView;

    open spec fn view(&self) -> MessageView {
        match self {
            SettingsMessage::SetColormap(x) => MessageView::SetColormap(x@),
            SettingsMessage::SetColormapStops(n, st) => MessageView::SetColormapStops(n@, st@),
            SettingsMessage::SaveColormapStops(n, st) => MessageView::SaveColormapStops(n@, st@),
            SettingsMessage::SetContrast(x) => MessageView::SetContrast(x@),
            SettingsMessage::SetSaturation(x) => MessageView::SetSaturation(x@),
            SettingsMessage::SetOpacity(x) => MessageView::SetOpacity(x@),
            SettingsMessage::SetProfile(x) => MessageView::SetProfile(x@),
            SettingsMessage::SetOverlay(x) => MessageView::SetOverlay(x@),
            SettingsMessage::SetSource(x) => MessageView::SetSource(x@),
            SettingsMessage::SetWindowFn(w) => MessageView::SetWindowFn(*w),
            SettingsMessage::SetWeighting(w) => MessageView::SetWeighting(*w),
            SettingsMessage::SetTransform(t) => MessageView::SetTransform(*t),
            SettingsMessage::SetBandAggregation(a) => MessageView::SetBandAggregation(*a),
            SettingsMessage::SetCentered(b) => MessageView::SetCentered(*b),
            SettingsMessage::SetSharedBg(b) => MessageView::SetSharedBg(*b),
            SettingsMessage::SetAdditiveBlend(b) => MessageView::SetAdditiveBlend(*b),
            SettingsMessage::AdvancedSlider(d, v) => MessageView::AdvancedSlider(*d, v@),
            SettingsMessage::AdvancedSliderRelease(d) => MessageView::AdvancedSliderRelease(*d),
            SettingsMessage::Toggle => MessageView::Toggle,
            SettingsMessage::Close => MessageView::Close,
        }
    }
}

/// A parse result with its messages and error text viewed.
pub open spec fn messages_view(r: Result<Vec<SettingsMessage>, String>) -> Result<Seq<MessageView>, Seq<char>> {
    match r {
        Ok(v) => Ok(v@.map_values(|m: SettingsMessage| m@)),
        Err(e) => Err(e@),
    }
}

/// `hann`, `hamming`, `blackman` or `blackman-harris` (lower case `l`;
/// `rest` is quoted in the error).
pub open spec fn spec_window_choice(l: Seq<char>, rest: Seq<char>) -> Result<WindowFunction, Seq<char>> {
    if l == "hann"@ {
        Ok(WindowFunction::Hann)
    } else if l == "hamming"@ {
        Ok(WindowFunction::Hamming)
    } else if l == "blackman"@ {
        Ok(WindowFunction::Blackman)
    } else if l == "blackman-harris"@ {
        Ok(WindowFunction::BlackmanHarris)
    } else {
        Err("unknown window function '"@ + rest + "'"@)
    }
}

/// `none`, `a` or `c`.
pub open spec fn spec_weighting_choice(l: Seq<char>, rest: Seq<char>) -> Result<Weighting, Seq<char>> {
    if l == "none"@ {
        Ok(Weighting::Z)
    } else if l == "a"@ {
        Ok(Weighting::A)
    } else if l == "c"@ {
        Ok(Weighting::C)
    } else {
        Err("unknown weighting '"@ + rest + "'"@)
    }
}

/// `stft` or `cqt`.
pub open spec fn spec_transform_choice(l: Seq<char>, rest: Seq<char>) -> Result<Transform, Seq<char>> {
    if l == "stft"@ {
        Ok(Transform::Stft)
    } else if l == "cqt"@ {
        Ok(Transform::Cqt)
    } else {
        Err("unknown transform '"@ + rest + "'"@)
    }
}

/// `nearest` or `triangular`.
pub open spec fn spec_band_choice(l: Seq<char>, rest: Seq<char>) -> Result<BandAggregation, Seq<char>> {
    if l == "nearest"@ {
        Ok(BandAggregation::Nearest)
    } else if l == "triangular"@ {
        Ok(BandAggregation::Triangular)
    } else {
        Err("unknown band aggregation '"@ + rest + "'"@)
    }
}

/// What each command word does with its argument `rest`: `colormap`,
/// `profile`, `overlay` and `source` pass it on; `toggle-menu` and
/// `close-menu` ignore it; `contrast`, `saturation` and `opacity` need a
/// number; the choice commands take the word that their choice reads (the
/// answer to an unknown word is that choice's error); `colormap-stops`,
/// `colormap-save` and `set` read their own arguments.
pub proof fn law_command_words(rest: Seq<char>)
    ensures
        spec_dispatch("colormap"@, rest) == Ok::<Seq<MessageView>, Seq<char>>(seq![MessageView::SetColormap(rest)]),
        spec_dispatch("profile"@, rest) == Ok::<Seq<MessageView>, Seq<char>>(seq![MessageView::SetProfile(rest)]),
        spec_dispatch("overlay"@, rest) == Ok::<Seq<MessageView>, Seq<char>>(seq![MessageView::SetOverlay(rest)]),
        spec_dispatch("source"@, rest) == Ok::<Seq<MessageView>, Seq<char>>(seq![MessageView::SetSource(rest)]),
        spec_dispatch("toggle-menu"@, rest) == Ok::<Seq<MessageView>, Seq<char>>(seq![MessageView::Toggle]),
        spec_dispatch("close-menu"@, rest) == Ok::<Seq<MessageView>, Seq<char>>(seq![MessageView::Close]),
        is_number_text(rest) ==> spec_dispatch("contrast"@, rest) == Ok::<Seq<MessageView>, Seq<char>>(seq![MessageView::SetContrast(rest)]),
        !is_number_text(rest) ==> spec_dispatch("contrast"@, rest) == Err::<Seq<MessageView>, Seq<char>>("expected number"@),
        is_number_text(rest) ==> spec_dispatch("saturation"@, rest) == Ok::<Seq<MessageView>, Seq<char>>(seq![MessageView::SetSaturation(rest)]),
        !is_number_text(rest) ==> spec_dispatch("saturation"@, rest) == Err::<Seq<MessageView>, Seq<char>>("expected number"@),
        is_number_text(rest) ==> spec_dispatch("opacity"@, rest) == Ok::<Seq<MessageView>, Seq<char>>(seq![MessageView::SetOpacity(rest)]),
        !is_number_text(rest) ==> spec_dispatch("opacity"@, rest) == Err::<Seq<MessageView>, Seq<char>>("expected number"@),
        spec_window_choice(to_lower(rest), rest) matches Ok(v) ==> spec_dispatch("window-fn"@, rest) == Ok::<Seq<MessageView>, Seq<char>>(seq![MessageView::SetWindowFn(v)]),
        spec_window_choice(to_lower(rest), rest) matches Err(e) ==> spec_dispatch("window-fn"@, rest) == Err::<Seq<MessageView>, Seq<char>>(e),
        spec_weighting_choice(to_lower(rest), rest) matches Ok(v) ==> spec_dispatch("weighting"@, rest) == Ok::<Seq<MessageView>, Seq<char>>(seq![MessageView::SetWeighting(v)]),
        spec_weighting_choice(to_lower(rest), rest) matches Err(e) ==> spec_dispatch("weighting"@, rest) == Err::<Seq<MessageView>, Seq<char>>(e),
        spec_transform_choice(to_lower(rest), rest) matches Ok(v) ==> spec_dispatch("transform"@, rest) == Ok::<Seq<MessageView>, Seq<char>>(seq![MessageView::SetTransform(v)]),
        spec_transform_choice(to_lower(rest), rest) matches Err(e) ==> spec_dispatch("transform"@, rest) == Err::<Seq<MessageView>, Seq<char>>(e),
        spec_band_choice(to_lower(rest), rest) matches Ok(v) ==> spec_dispatch("band-agg"@, rest) == Ok::<Seq<MessageView>, Seq<char>>(seq![MessageView::SetBandAggregation(v)]),
        spec_band_choice(to_lower(rest), rest) matches Err(e) ==> spec_dispatch("band-agg"@, rest) == Err::<Seq<MessageView>, Seq<char>>(e),
        spec_band_choice(to_lower(rest), rest) matches Ok(v) ==> spec_dispatch("band-aggregation"@, rest) == Ok::<Seq<MessageView>, Seq<char>>(seq![MessageView::SetBandAggregation(v)]),
        spec_band_choice(to_lower(rest), rest) matches Err(e) ==> spec_dispatch("band-aggregation"@, rest) == Err::<Seq<MessageView>, Seq<char>>(e),
        spec_bool_word(to_lower(rest), rest) matches Ok(v) ==> spec_dispatch("centered"@, rest) == Ok::<Seq<MessageView>, Seq<char>>(seq![MessageView::SetCentered(v)]),
        spec_bool_word(to_lower(rest), rest) matches Err(e) ==> spec_dispatch("centered"@, rest) == Err::<Seq<MessageView>, Seq<char>>(e),
        spec_bool_word(to_lower(rest), rest) matches Ok(v) ==> spec_dispatch("shared-bg"@, rest) == Ok::<Seq<MessageView>, Seq<char>>(seq![MessageView::SetSharedBg(v)]),
        spec_bool_word(to_lower(rest), rest) matches Err(e) ==> spec_dispatch("shared-bg"@, rest) == Err::<Seq<MessageView>, Seq<char>>(e),
        spec_bool_word(to_lower(rest), rest) matches Ok(v) ==> spec_dispatch("additive-blend"@, rest) == Ok::<Seq<MessageView>, Seq<char>>(seq![MessageView::SetAdditiveBlend(v)]),
        spec_bool_word(to_lower(rest), rest) matches Err(e) ==> spec_dispatch("additive-blend"@, rest) == Err::<Seq<MessageView>, Seq<char>>(e),
        spec_dispatch("colormap-stops"@, rest) == spec_stops_command(false, rest),
        spec_dispatch("colormap-save"@, rest) == spec_stops_command(true, rest),
        spec_dispatch("set"@, rest) == spec_set_command(rest),
{
    reveal_strlit("colormap");
    reveal_strlit("profile");
    reveal_strlit("overlay");
    reveal_strlit("source");
    reveal_strlit("toggle-menu");
    reveal_strlit("close-menu");
    reveal_strlit("contrast");
    reveal_strlit("saturation");
    reveal_strlit("opacity");
    reveal_strlit("window-fn");
    reveal_strlit("weighting");
    reveal_strlit("transform");
    reveal_strlit("band-agg");
    reveal_strlit("band-aggregation");
    reveal_strlit("centered");
    reveal_strlit("shared-bg");
    reveal_strlit("additive-blend");
    reveal_strlit("colormap-stops");
    reveal_strlit("colormap-save");
    reveal_strlit("set");
    assert("colormap"@.len() == 8 && "profile"@.len() == 7 && "overlay"@.len() == 7 && "source"@.len() == 6 && "toggle-menu"@.len() == 11 && "close-menu"@.len() == 10 && "contrast"@.len() == 8 && "saturation"@.len() == 10 && "opacity"@.len() == 7 && "window-fn"@.len() == 9 && "weighting"@.len() == 9 && "transform"@.len() == 9 && "band-agg"@.len() == 8 && "band-aggregation"@.len() == 16 && "centered"@.len() == 8 && "shared-bg"@.len() == 9 && "additive-blend"@.len() == 14 && "colormap-stops"@.len() == 14 && "colormap-save"@.len() == 13 && "set"@.len() == 3);
    assert("colormap"@[2] != "contrast"@[2] && "colormap"@[1] != "centered"@[1] && "contrast"@[1] != "centered"@[1]);
    assert("colormap"@[0] != "band-agg"@[0] && "contrast"@[0] != "band-agg"@[0] && "centered"@[0] != "band-agg"@[0]);
    assert("profile"@[0] != "overlay"@[0] && "profile"@[0] != "opacity"@[0] && "overlay"@[1] != "opacity"@[1]);
    assert("close-menu"@[0] != "saturation"@[0]);
    assert("window-fn"@[1] != "weighting"@[1] && "window-fn"@[0] != "transform"@[0] && "window-fn"@[0] != "shared-bg"@[0]);
    assert("weighting"@[0] != "transform"@[0] && "weighting"@[0] != "shared-bg"@[0] && "transform"@[0] != "shared-bg"@[0]);
    assert("additive-blend"@[0] != "colormap-stops"@[0]);
}

/// Each parameter name selects its own parameter (`fft-size` and
/// `window-size` both the window size); no other name selects one.
pub proof fn law_slider_names(l: Seq<char>, l2: Seq<char>)
    ensures
        spec_slider_name("fft-size"@) == Some(DspSlider::WindowSize),
        spec_slider_name("window-size"@) == Some(DspSlider::WindowSize),
        spec_slider_name("hop"@) == Some(DspSlider::HopSize),
        spec_slider_name("log-bins"@) == Some(DspSlider::LogBins),
        spec_slider_name("f-min"@) == Some(DspSlider::FMin),
        spec_slider_name("f-max"@) == Some(DspSlider::FMax),
        spec_slider_name("db-floor"@) == Some(DspSlider::DbFloor),
        spec_slider_name("db-ceil"@) == Some(DspSlider::DbCeil),
        spec_slider_name("smoothing"@) == Some(DspSlider::Smoothing),
        spec_slider_name("gamma"@) == Some(DspSlider::Gamma),
        spec_slider_name("temporal-alpha"@) == Some(DspSlider::TemporalAlpha),
        spec_slider_name("peak-decay"@) == Some(DspSlider::PeakDecay),
        spec_slider_name("cqt-bins"@) == Some(DspSlider::CqtBins),
        spec_slider_name("freq-scale-exp"@) == Some(DspSlider::FreqScaleExp),
        spec_slider_name("history"@) == Some(DspSlider::History),
        spec_slider_name(l) is Some && spec_slider_name(l) == spec_slider_name(l2) ==> l == l2 || (spec_slider_name(l)
            == Some(DspSlider::WindowSize) && (l == "fft-size"@ || l == "window-size"@) && (l2 == "fft-size"@ || l2
            == "window-size"@)),
{
    reveal_strlit("fft-size");
    reveal_strlit("window-size");
    reveal_strlit("hop");
    reveal_strlit("log-bins");
    reveal_strlit("f-min");
    reveal_strlit("f-max");
    reveal_strlit("db-floor");
    reveal_strlit("db-ceil");
    reveal_strlit("smoothing");
    reveal_strlit("gamma");
    reveal_strlit("temporal-alpha");
    reveal_strlit("peak-decay");
    reveal_strlit("cqt-bins");
    reveal_strlit("freq-scale-exp");
    reveal_strlit("history");
    assert("fft-size"@.len() == 8 && "window-size"@.len() == 11 && "hop"@.len() == 3 && "log-bins"@.len() == 8 && "f-min"@.len() == 5 && "f-max"@.len() == 5 && "db-floor"@.len() == 8 && "db-ceil"@.len() == 7 && "smoothing"@.len() == 9 && "gamma"@.len() == 5 && "temporal-alpha"@.len() == 14 && "peak-decay"@.len() == 10 && "cqt-bins"@.len() == 8 && "freq-scale-exp"@.len() == 14 && "history"@.len() == 7);
    assert("fft-size"@[0] != "log-bins"@[0] && "fft-size"@[0] != "db-floor"@[0] && "fft-size"@[0] != "cqt-bins"@[0]);
    assert("log-bins"@[0] != "db-floor"@[0] && "log-bins"@[0] != "cqt-bins"@[0] && "db-floor"@[0] != "cqt-bins"@[0]);
    assert("f-min"@[3] != "f-max"@[3] && "f-min"@[0] != "gamma"@[0] && "f-max"@[0] != "gamma"@[0]);
    assert("db-ceil"@[0] != "history"@[0]);
    assert("temporal-alpha"@[0] != "freq-scale-exp"@[0]);
}

/// `true`, `1`, `on` read as true and `false`, `0`, `off` as false; every
/// other word is refused, quoting the text as given.
pub proof fn law_bool_words(l: Seq<char>, s: Seq<char>)
    ensures
        spec_bool_word("true"@, s) == Ok::<bool, Seq<char>>(true),
        spec_bool_word("1"@, s) == Ok::<bool, Seq<char>>(true),
        spec_bool_word("on"@, s) == Ok::<bool, Seq<char>>(true),
        spec_bool_word("false"@, s) == Ok::<bool, Seq<char>>(false),
        spec_bool_word("0"@, s) == Ok::<bool, Seq<char>>(false),
        spec_bool_word("off"@, s) == Ok::<bool, Seq<char>>(false),
        !(l == "true"@ || l == "1"@ || l == "on"@ || l == "false"@ || l == "0"@ || l == "off"@) ==> spec_bool_word(l, s)
            == Err::<bool, Seq<char>>("expected true/false, got '"@ + s + "'"@),
{
    reveal_strlit("true");
    reveal_strlit("1");
    reveal_strlit("on");
    reveal_strlit("false");
    reveal_strlit("0");
    reveal_strlit("off");
    assert("true"@.len() == 4 && "1"@.len() == 1 && "on"@.len() == 2 && "false"@.len() == 5 && "0"@.len() == 1 && "off"@.len() == 3);
    assert("1"@[0] != "0"@[0] && "on"@[1] != "off"@[1]);
}

/// Each query word names its own query; no other line is a query.
pub proof fn law_query_names(l: Seq<char>)
    ensures
        spec_query("list-colormaps"@) == Some(Query::ListColormaps),
        spec_query("list-profiles"@) == Some(Query::ListProfiles),
        spec_query("list-overlays"@) == Some(Query::ListOverlays),
        spec_query("help"@) == Some(Query::Help),
        spec_query(l) is Some <==> (l == "list-colormaps"@ || l == "list-profiles"@ || l == "list-overlays"@ || l
            == "help"@),
{
    reveal_strlit("list-colormaps");
    reveal_strlit("list-profiles");
    reveal_strlit("list-overlays");
    reveal_strlit("help");
    assert("list-colormaps"@.len() == 14 && "list-profiles"@.len() == 13 && "list-overlays"@.len() == 13 && "help"@.len() == 4);
    assert("list-profiles"@[5] != "list-overlays"@[5]);
}

/// Each window-function word selects its own window (`hann`, `hamming`,
/// `blackman`, `blackman-harris`); no other word selects one, and two words
/// that select the same window are the same word.
pub proof fn law_window_names(l: Seq<char>, rest: Seq<char>, l2: Seq<char>)
    ensures
        spec_window_choice("hann"@, rest) matches Ok(w) && w == WindowFunction::Hann,
        spec_window_choice("hamming"@, rest) matches Ok(w) && w == WindowFunction::Hamming,
        spec_window_choice("blackman"@, rest) matches Ok(w) && w == WindowFunction::Blackman,
        spec_window_choice("blackman-harris"@, rest) matches Ok(w) && w == WindowFunction::BlackmanHarris,
        spec_window_choice(l, rest) is Ok <==> (l == "hann"@ || l == "hamming"@ || l == "blackman"@ || l
            == "blackman-harris"@),
        spec_window_choice(l, rest) is Ok && spec_window_choice(l, rest) == spec_window_choice(l2, rest) ==> l == l2,
{
    reveal_strlit("hann");
    reveal_strlit("hamming");
    reveal_strlit("blackman");
    reveal_strlit("blackman-harris");
    assert("hann"@.len() == 4 && "hamming"@.len() == 7 && "blackman"@.len() == 8 && "blackman-harris"@.len() == 15);
}

/// Each weighting word selects its own curve (`none` the flat one, `a`,
/// `c`); no other word selects one, and two words that select the same
/// curve are the same word.
pub proof fn law_weighting_names(l: Seq<char>, rest: Seq<char>, l2: Seq<char>)
    ensures
        spec_weighting_choice("none"@, rest) matches Ok(w) && w == Weighting::Z,
        spec_weighting_choice("a"@, rest) matches Ok(w) && w == Weighting::A,
        spec_weighting_choice("c"@, rest) matches Ok(w) && w == Weighting::C,
        spec_weighting_choice(l, rest) is Ok <==> (l == "none"@ || l == "a"@ || l == "c"@),
        spec_weighting_choice(l, rest) is Ok && spec_weighting_choice(l, rest) == spec_weighting_choice(l2, rest) ==> l == l2,
{
    reveal_strlit("none");
    reveal_strlit("a");
    reveal_strlit("c");
    assert("none"@.len() == 4 && "a"@.len() == 1 && "c"@.len() == 1 && "a"@[0] != "c"@[0]);
}

/// `stft` selects the STFT and `cqt` the constant-Q transform; no other
/// word selects one, and the two words give different transforms.
pub proof fn law_transform_names(l: Seq<char>, rest: Seq<char>, l2: Seq<char>)
    ensures
        spec_transform_choice("stft"@, rest) matches Ok(t) && t == Transform::Stft,
        spec_transform_choice("cqt"@, rest) matches Ok(t) && t == Transform::Cqt,
        spec_transform_choice(l, rest) is Ok <==> (l == "stft"@ || l == "cqt"@),
        spec_transform_choice(l, rest) is Ok && spec_transform_choice(l, rest) == spec_transform_choice(l2, rest) ==> l == l2,
{
    reveal_strlit("stft");
    reveal_strlit("cqt");
    assert("stft"@.len() == 4 && "cqt"@.len() == 3);
}

/// `nearest` and `triangular` select their own band aggregation; no other
/// word selects one, and the two words give different aggregations.
pub proof fn law_band_names(l: Seq<char>, rest: Seq<char>, l2: Seq<char>)
    ensures
        spec_band_choice("nearest"@, rest) matches Ok(b) && b == BandAggregation::Nearest,
        spec_band_choice("triangular"@, rest) matches Ok(b) && b == BandAggregation::Triangular,
        spec_band_choice(l, rest) is Ok <==> (l == "nearest"@ || l == "triangular"@),
        spec_band_choice(l, rest) is Ok && spec_band_choice(l, rest) == spec_band_choice(l2, rest) ==> l == l2,
{
    reveal_strlit("nearest");
    reveal_strlit("triangular");
    assert("nearest"@.len() == 7 && "triangular"@.len() == 10);
}

/// Wraps one message, or passes an error on.
pub open spec fn one<T>(r: Result<T, Seq<char>>, f: spec_fn(T) -> MessageView) -> Result<Seq<MessageView>, Seq<char>> {
    match r {
        Ok(v) => Ok(seq![f(v)]),
        Err(e) => Err(e),
    }
}

/// Commands whose argument is the rest of the line as it is, and the two
/// menu commands; `None` for other commands.
pub open spec fn spec_plain_command(c: Seq<char>, rest: Seq<char>) -> Option<MessageView> {
    if c == "colormap"@ {
        Some(MessageView::SetColormap(rest))
    } else if c == "profile"@ {
        Some(MessageView::SetProfile(rest))
    } else if c == "overlay"@ {
        Some(MessageView::SetOverlay(rest))
    } else if c == "source"@ {
        Some(MessageView::SetSource(rest))
    } else if c == "toggle-menu"@ {
        Some(MessageView::Toggle)
    } else if c == "close-menu"@ {
        Some(MessageView::Close)
    } else {
        None
    }
}

/// `contrast`, `saturation` and `opacity`, whose argument must be a
/// number; `None` for other commands.
pub open spec fn spec_number_command(c: Seq<char>, rest: Seq<char>) -> Option<Result<Seq<MessageView>, Seq<char>>> {
    if c == "contrast"@ || c == "saturation"@ || c == "opacity"@ {
        Some(
            if !is_number_text(rest) {
                Err("expected number"@)
            } else if c == "contrast"@ {
                Ok(seq![MessageView::SetContrast(rest)])
            } else if c == "saturation"@ {
                Ok(seq![MessageView::SetSaturation(rest)])
            } else {
                Ok(seq![MessageView::SetOpacity(rest)])
            },
        )
    } else {
        None
    }
}

/// Commands that choose among fixed words; `None` for other commands.
pub open spec fn spec_choice_command(c: Seq<char>, rest: Seq<char>) -> Option<Result<Seq<MessageView>, Seq<char>>> {
    let l = to_lower(rest);
    if c == "window-fn"@ {
        Some(one(spec_window_choice(l, rest), |w: WindowFunction| MessageView::SetWindowFn(w)))
    } else if c == "weighting"@ {
        Some(one(spec_weighting_choice(l, rest), |w: Weighting| MessageView::SetWeighting(w)))
    } else if c == "transform"@ {
        Some(one(spec_transform_choice(l, rest), |t: Transform| MessageView::SetTransform(t)))
    } else if c == "band-agg"@ || c == "band-aggregation"@ {
        Some(one(spec_band_choice(l, rest), |a: BandAggregation| MessageView::SetBandAggregation(a)))
    } else if c == "centered"@ {
        Some(one(spec_bool_word(l, rest), |b: bool| MessageView::SetCentered(b)))
    } else if c == "shared-bg"@ {
        Some(one(spec_bool_word(l, rest), |b: bool| MessageView::SetSharedBg(b)))
    } else if c == "additive-blend"@ {
        Some(one(spec_bool_word(l, rest), |b: bool| MessageView::SetAdditiveBlend(b)))
    } else {
        None
    }
}

/// `colormap-stops <name> <stops>` / `colormap-save <name> <stops>`.
pub open spec fn spec_stops_command(save: bool, rest: Seq<char>) -> Result<Seq<MessageView>, Seq<char>> {
    match split_once_ws(rest) {
        None => Err(if save {
            "expected: colormap-save <name> <pos,r,g,b> ..."@
        } else {
            "expected: colormap-stops <name> <pos,r,g,b> ..."@
        }),
        Some((name, stops)) => match spec_parse_stops(stops) {
            Err(e) => Err(e),
            Ok(list) => Ok(seq![
                if save {
                    MessageView::SaveColormapStops(trim(name), list)
                } else {
                    MessageView::SetColormapStops(trim(name), list)
                },
            ]),
        },
    }
}

/// `set <param> <value>`: the slider change and its release.
pub open spec fn spec_set_command(rest: Seq<char>) -> Result<Seq<MessageView>, Seq<char>> {
    match split_once_ws(rest) {
        None => Err("expected: set <param> <value>"@),
        Some((param, value)) => {
            let p = trim(param);
            match spec_slider(to_lower(p), p) {
                Err(e) => Err(e),
                Ok(d) => if is_number_text(trim(value)) {
                    Ok(seq![MessageView::AdvancedSlider(d, trim(value)), MessageView::AdvancedSliderRelease(d)])
                } else {
                    Err("expected number"@)
                },
            }
        },
    }
}

/// The answer to command word `c` (in lower case) with argument `rest`
/// (trimmed).
pub open spec fn spec_dispatch(c: Seq<char>, rest: Seq<char>) -> Result<Seq<MessageView>, Seq<char>> {
    match spec_plain_command(c, rest) {
        Some(m) => Ok(seq![m]),
        None => match spec_number_command(c, rest) {
            Some(r) => r,
            None => match spec_choice_command(c, rest) {
                Some(r) => r,
                None => if c == "colormap-stops"@ {
                    spec_stops_command(false, rest)
                } else if c == "colormap-save"@ {
                    spec_stops_command(true, rest)
                } else if c == "set"@ {
                    spec_set_command(rest)
                } else {
                    Err("unknown command '"@ + c + "'. Send 'help' for usage."@)
                },
            },
        },
    }
}

/// The answer to a command line: the first word (lower-cased) is the
/// command, the rest of the line (trimmed) its argument.
pub open spec fn spec_parse_command(line: Seq<char>) -> Result<Seq<MessageView>, Seq<char>> {
    match split_once_ws(line) {
        Some((cmd, rest)) => spec_dispatch(to_lower(cmd), trim(rest)),
        None => spec_dispatch(to_lower(line), Seq::empty()),
    }
}

pub fn window_from_lowercase(l: &[char], rest: &[char]) -> (r: Result<WindowFunction, String>)
    ensures
        result_view(r) == spec_window_choice(l@, rest@),
        l@ == "hann"@ ==> (r matches Ok(w) && w == WindowFunction::Hann),
        l@ == "hamming"@ ==> (r matches Ok(w) && w == WindowFunction::Hamming),
        l@ == "blackman"@ ==> (r matches Ok(w) && w == WindowFunction::Blackman),
        l@ == "blackman-harris"@ ==> (r matches Ok(w) && w == WindowFunction::BlackmanHarris),
        r is Ok <==> (l@ == "hann"@ || l@ == "hamming"@ || l@ == "blackman"@ || l@ == "blackman-harris"@),
{
    proof {
        law_window_names(l@, rest@, l@);
    }
    if chars_eq_str(l, "hann") {
        Ok(WindowFunction::Hann)
    } else if chars_eq_str(l, "hamming") {
        Ok(WindowFunction::Hamming)
    } else if chars_eq_str(l, "blackman") {
        Ok(WindowFunction::Blackman)
    } else if chars_eq_str(l, "blackman-harris") {
        Ok(WindowFunction::BlackmanHarris)
    } else {
        err_of(quoted("unknown window function '", rest, "'"))
    }
}

fn weighting_from_lowercase(l: &[char], rest: &[char]) -> (r: Result<Weighting, String>)
    ensures
        result_view(r) == spec_weighting_choice(l@, rest@),
        l@ == "none"@ ==> (r matches Ok(w) && w == Weighting::Z),
        l@ == "a"@ ==> (r matches Ok(w) && w == Weighting::A),
        l@ == "c"@ ==> (r matches Ok(w) && w == Weighting::C),
        r is Ok <==> (l@ == "none"@ || l@ == "a"@ || l@ == "c"@),
{
    proof {
        law_weighting_names(l@, rest@, l@);
    }
    if chars_eq_str(l, "none") {
        Ok(Weighting::Z)
    } else if chars_eq_str(l, "a") {
        Ok(Weighting::A)
    } else if chars_eq_str(l, "c") {
        Ok(Weighting::C)
    } else {
        err_of(quoted("unknown weighting '", rest, "'"))
    }
}

fn transform_from_lowercase(l: &[char], rest: &[char]) -> (r: Result<Transform, String>)
    ensures
        result_view(r) == spec_transform_choice(l@, rest@),
        l@ == "stft"@ ==> (r matches Ok(t) && t == Transform::Stft),
        l@ == "cqt"@ ==> (r matches Ok(t) && t == Transform::Cqt),
        r is Ok <==> (l@ == "stft"@ || l@ == "cqt"@),
{
    proof {
        law_transform_names(l@, rest@, l@);
    }
    if chars_eq_str(l, "stft") {
        Ok(Transform::Stft)
    } else if chars_eq_str(l, "cqt") {
        Ok(Transform::Cqt)
    } else {
        err_of(quoted("unknown transform '", rest, "'"))
    }
}

/// A band-aggregation name (`nearest` or `triangular`, any case).
pub fn parse_band_aggregation(name: &str) -> (r: Result<BandAggregation, String>)
    ensures
        result_view(r) == spec_band_choice(to_lower(name@), name@),
{
    let c = chars_of(name);
    let l = lowercase_chars(c.as_slice());
    band_from_lowercase(l.as_slice(), c.as_slice())
}

fn band_from_lowercase(l: &[char], rest: &[char]) -> (r: Result<BandAggregation, String>)
    ensures
        result_view(r) == spec_band_choice(l@, rest@),
        l@ == "nearest"@ ==> (r matches Ok(b) && b == BandAggregation::Nearest),
        l@ == "triangular"@ ==> (r matches Ok(b) && b == BandAggregation::Triangular),
        r is Ok <==> (l@ == "nearest"@ || l@ == "triangular"@),
{
    proof {
        law_band_names(l@, rest@, l@);
    }
    if chars_eq_str(l, "nearest") {
        Ok(BandAggregation::Nearest)
    } else if chars_eq_str(l, "triangular") {
        Ok(BandAggregation::Triangular)
    } else {
        err_of(quoted("unknown band aggregation '", rest, "'"))
    }
}

fn single(m: SettingsMessage) -> (r: Vec<SettingsMessage>)
    ensures
        r@.map_values(|x: SettingsMessage| x@) == seq![m@],
{
    let mut v: Vec<SettingsMessage> = Vec::new();
    v.push(m);
    proof {
        assert(v@.map_values(|x: SettingsMessage| x@) =~= seq![m@]);
    }
    v
}

fn text(v: &[char]) -> (r: String)
    ensures
        r@ == v@,
{
    string_from_chars(v)
}

fn plain_command(c: &[char], rest: &[char]) -> (r: Option<SettingsMessage>)
    ensures
        match (r, spec_plain_command(c@, rest@)) {
            (Some(m), Some(sm)) => m@ == sm,
            (None, None) => true,
            _ => false,
        },
{
    if chars_eq_str(c, "colormap") {
        Some(SettingsMessage::SetColormap(text(rest)))
    } else if chars_eq_str(c, "profile") {
        Some(SettingsMessage::SetProfile(text(rest)))
    } else if chars_eq_str(c, "overlay") {
        Some(SettingsMessage::SetOverlay(text(rest)))
    } else if chars_eq_str(c, "source") {
        Some(SettingsMessage::SetSource(text(rest)))
    } else if chars_eq_str(c, "toggle-menu") {
        Some(SettingsMessage::Toggle)
    } else if chars_eq_str(c, "close-menu") {
        Some(SettingsMessage::Close)
    } else {
        None
    }
}

fn number_command(c: &[char], rest: &[char]) -> (r: Option<Result<Vec<SettingsMessage>, String>>)
    ensures
        match (r, spec_number_command(c@, rest@)) {
            (Some(x), Some(sx)) => messages_view(x) == sx,
            (None, None) => true,
            _ => false,
        },
{
    let contrast = chars_eq_str(c, "contrast");
    let saturation = chars_eq_str(c, "saturation");
    let opacity = chars_eq_str(c, "opacity");
    if !(contrast || saturation || opacity) {
        return None;
    }
    if !number_text(rest) {
        return Some(err_str("expected number"));
    }
    let m = if contrast {
        SettingsMessage::SetContrast(text(rest))
    } else if saturation {
        SettingsMessage::SetSaturation(text(rest))
    } else {
        SettingsMessage::SetOpacity(text(rest))
    };
    Some(Ok(single(m)))
}

fn choice_command(c: &[char], rest: &[char]) -> (r: Option<Result<Vec<SettingsMessage>, String>>)
    ensures
        match (r, spec_choice_command(c@, rest@)) {
            (Some(x), Some(sx)) => messages_view(x) == sx,
            (None, None) => true,
            _ => false,
        },
{
    let is_window = chars_eq_str(c, "window-fn");
    let is_weighting = chars_eq_str(c, "weighting");
    let is_transform = chars_eq_str(c, "transform");
    let is_band = chars_eq_str(c, "band-agg") || chars_eq_str(c, "band-aggregation");
    let is_centered = chars_eq_str(c, "centered");
    let is_shared = chars_eq_str(c, "shared-bg");
    let is_additive = chars_eq_str(c, "additive-blend");
    if !(is_window || is_weighting || is_transform || is_band || is_centered || is_shared || is_additive) {
        return None;
    }
    let l = lowercase_chars(rest);
    if is_window {
        match window_from_lowercase(l.as_slice(), rest) {
            Ok(w) => Some(Ok(single(SettingsMessage::SetWindowFn(w)))),
            Err(e) => Some(Err(e)),
        }
    } else if is_weighting {
        match weighting_from_lowercase(l.as_slice(), rest) {
            Ok(w) => Some(Ok(single(SettingsMessage::SetWeighting(w)))),
            Err(e) => Some(Err(e)),
        }
    } else if is_transform {
        match transform_from_lowercase(l.as_slice(), rest) {
            Ok(t) => Some(Ok(single(SettingsMessage::SetTransform(t)))),
            Err(e) => Some(Err(e)),
        }
    } else if is_band {
        match band_from_lowercase(l.as_slice(), rest) {
            Ok(a) => Some(Ok(single(SettingsMessage::SetBandAggregation(a)))),
            Err(e) => Some(Err(e)),
        }
    } else {
        match bool_from_lowercase(l.as_slice(), rest) {
            Ok(b) => {
                let m = if is_centered {
                    SettingsMessage::SetCentered(b)
                } else if is_shared {
                    SettingsMessage::SetSharedBg(b)
                } else {
                    SettingsMessage::SetAdditiveBlend(b)
                };
                Some(Ok(single(m)))
            },
            Err(e) => Some(Err(e)),
        }
    }
}

fn stops_command(save: bool, rest: &[char]) -> (r: Result<Vec<SettingsMessage>, String>)
    ensures
        messages_view(r) == spec_stops_command(save, rest@),
{
    match split_once_ws_chars(rest) {
        None => {
            if save {
                err_str("expected: colormap-save <name> <pos,r,g,b> ...")
            } else {
                err_str("expected: colormap-stops <name> <pos,r,g,b> ...")
            }
        },
        Some((name, stops)) => {
            let list = match parse_stops(stops.as_slice()) {
                Ok(l) => l,
                Err(e) => {
                    return Err(e);
                },
            };
            let n = text(trim_chars(name.as_slice()).as_slice());
            if save {
                Ok(single(SettingsMessage::SaveColormapStops(n, list)))
            } else {
                Ok(single(SettingsMessage::SetColormapStops(n, list)))
            }
        },
    }
}

fn set_command(rest: &[char]) -> (r: Result<Vec<SettingsMessage>, String>)
    ensures
        messages_view(r) == spec_set_command(rest@),
{
    match split_once_ws_chars(rest) {
        None => err_str("expected: set <param> <value>"),
        Some((param, value)) => {
            let p = trim_chars(param.as_slice());
            match parse_slider_chars(p.as_slice()) {
                Err(e) => Err(e),
                Ok(d) => {
                    let vt = trim_chars(value.as_slice());
                    if !number_text(vt.as_slice()) {
                        return err_str("expected number");
                    }
                    let v = text(vt.as_slice());
                    let mut out: Vec<SettingsMessage> = Vec::new();
                    let m1 = SettingsMessage::AdvancedSlider(d, v);
                    let ghost v1 = m1@;
                    out.push(m1);
                    out.push(SettingsMessage::AdvancedSliderRelease(d));
                    proof {
                        assert(out@.map_values(|x: SettingsMessage| x@) =~= seq![
                            v1,
                            MessageView::AdvancedSliderRelease(d),
                        ]);
                    }
                    Ok(out)
                },
            }
        },
    }
}

/// The answer to command word `c` (already in lower case) with its trimmed
/// argument `rest`.
pub fn dispatch_command(c: &[char], rest: &[char]) -> (r: Result<Vec<SettingsMessage>, String>)
    ensures
        messages_view(r) == spec_dispatch(c@, rest@),
{
    if let Some(m) = plain_command(c, rest) {
        return Ok(single(m));
    }
    if let Some(r) = number_command(c, rest) {
        return r;
    }
    if let Some(r) = choice_command(c, rest) {
        return r;
    }
    if chars_eq_str(c, "colormap-stops") {
        stops_command(false, rest)
    } else if chars_eq_str(c, "colormap-save") {
        stops_command(true, rest)
    } else if chars_eq_str(c, "set") {
        set_command(rest)
    } else {
        err_of(quoted("unknown command '", c, "'. Send 'help' for usage."))
    }
}

/// Reads one command line into the settings changes it asks for.
pub fn parse_command(line: &str) -> (r: Result<Vec<SettingsMessage>, String>)
    ensures
        messages_view(r) == spec_parse_command(line@),
{
    let chars = chars_of(line);
    match split_once_ws_chars(chars.as_slice()) {
        Some((cmd, rest)) => {
            let c = lowercase_chars(cmd.as_slice());
            let r = trim_chars(rest.as_slice());
            dispatch_command(c.as_slice(), r.as_slice())
        },
        None => {
            let c = lowercase_chars(chars.as_slice());
            let r: Vec<char> = Vec::new();
            proof {
                assert(r@ =~= Seq::<char>::empty());
            }
            dispatch_command(c.as_slice(), r.as_slice())
        },
    }
}

/// The query commands, answered with data rather than `ok`.
#[derive(Clone, Copy, Debug, PartialEq, Eq, Structural)]
pub enum Query {
    ListColormaps,
    ListProfiles,
    ListOverlays,
    Help,
}

/// The query that a lower-case line names, if any.
pub open spec fn spec_query(l: Seq<char>) -> Option<Query> {
    if l == "list-colormaps"@ {
        Some(Query::ListColormaps)
    } else if l == "list-profiles"@ {
        Some(Query::ListProfiles)
    } else if l == "list-overlays"@ {
        Some(Query::ListOverlays)
    } else if l == "help"@ {
        Some(Query::Help)
    } else {
        None
    }
}

/// The query named by a lower-case line.
pub fn query_from_lowercase(l: &[char]) -> (r: Option<Query>)
    ensures
        r == spec_query(l@),
{
    if chars_eq_str(l, "list-colormaps") {
        Some(Query::ListColormaps)
    } else if chars_eq_str(l, "list-profiles") {
        Some(Query::ListProfiles)
    } else if chars_eq_str(l, "list-overlays") {
        Some(Query::ListOverlays)
    } else if chars_eq_str(l, "help") {
        Some(Query::Help)
    } else {
        None
    }
}

/// What a received line asks for.
#[derive(Debug)]
pub enum LineAction {
    /// A blank line: no answer.
    Skip,
    /// A query, answered with its data.
    Query(Query),
    /// Settings changes, or the error to answer.
    Commands(Result<Vec<SettingsMessage>, String>),
}

/// What a received line asks for: nothing for a blank line, a query when the
/// trimmed line names one (in any case), and otherwise the command it holds.
pub open spec fn spec_line_action_kind(line: Seq<char>) -> int {
    let t = trim(line);
    if t.len() == 0 {
        0
    } else if spec_query(to_lower(t)) is Some {
        1
    } else {
        2
    }
}

/// Reads one received line.
pub fn classify_line(line: &str) -> (r: LineAction)
    ensures
        spec_line_action_kind(line@) == 0 <==> r is Skip,
        r matches LineAction::Query(q) ==> spec_query(to_lower(trim(line@))) == Some(q),
        spec_line_action_kind(line@) == 1 <==> r is Query,
        r matches LineAction::Commands(c) ==> messages_view(c) == spec_parse_command(trim(line@)),
{
    let chars = chars_of(line);
    let t = trim_chars(chars.as_slice());
    if t.len() == 0 {
        return LineAction::Skip;
    }
    let l = lowercase_chars(t.as_slice());
    match query_from_lowercase(l.as_slice()) {
        Some(q) => LineAction::Query(q),
        None => {
            let ts = string_from_chars(t.as_slice());
            LineAction::Commands(parse_command(ts.as_str()))
        },
    }
}

/// The answer line for a rejected command: `error: <message>`.
pub fn error_reply(message: &str) -> (r: String)
    ensures
        r@ == "error: "@ + message@,
{
    let mut r = String::from_str("error: ");
    r.append(message);
    r
}

/// The answer line once a command's changes were handed on: `ok`, or
/// `error: channel closed` when the receiving side is gone.
pub fn delivery_reply(delivered: bool) -> (r: String)
    ensures
        delivered ==> r@ == "ok"@,
        !delivered ==> r@ == "error: channel closed"@,
{
    if delivered {
        String::from_str("ok")
    } else {
        String::from_str("error: channel closed")
    }
}

} // verus!
