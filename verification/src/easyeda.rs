//! What the converter decides around the EasyEDA service: the addresses it asks, the
//! metadata it derives from an answer, the 3D model an answer names, and when a failed
//! download is tried again.
use vstd::prelude::*;
use crate::error::{AppError, EasyedaError};
use crate::text::{chars_of, decimal, extend_str, starts_with, string_from};
use crate::vendor_import::strip_trailing;

verus! {

/// The service's address without trailing slashes.
pub fn normalized_base_url(base_url: &str) -> (r: String)
    ensures
        r@ == strip_trailing(base_url@, '/'),
{
    let cs = chars_of(base_url);
    let mut e: usize = cs.len();
    assert(cs@.take(cs.len() as int) =~= cs@);
    while e > 0 && cs[e - 1] == '/'
        invariant
            e <= cs.len(),
            cs@ == base_url@,
            strip_trailing(base_url@, '/') == strip_trailing(cs@.take(e as int), '/'),
        decreases e,
    {
        assert(cs@.take(e as int).drop_last() =~= cs@.take(e - 1));
        e = e - 1;
    }
    crate::text::string_of_range(cs.as_slice(), 0, e)
}

/// Where the data of component `lcsc_id` is asked for.
pub open spec fn component_address(base_url: Seq<char>, lcsc_id: Seq<char>) -> Seq<char> {
    base_url + "/api/products/"@ + lcsc_id + "/components?version=6.4.19.5"@
}

/// The address of a component's data (see `component_address`).
pub fn component_url(base_url: &str, lcsc_id: &str) -> (r: String)
    ensures
        r@ == component_address(base_url@, lcsc_id@),
{
    let mut v: Vec<char> = Vec::new();
    extend_str(&mut v, base_url);
    extend_str(&mut v, "/api/products/");
    extend_str(&mut v, lcsc_id);
    extend_str(&mut v, "/components?version=6.4.19.5");
    string_from(v.as_slice())
}

/// The texts of `parts` that are not empty, joined by single spaces.
pub open spec fn joined_nonempty(parts: Seq<Seq<char>>) -> Seq<char>
    decreases parts.len(),
{
    if parts.len() == 0 {
        Seq::empty()
    } else {
        let rest = joined_nonempty(parts.drop_last());
        let last = parts.last();
        if last.len() == 0 {
            rest
        } else if rest.len() == 0 {
            last
        } else {
            rest.push(' ') + last
        }
    }
}

/// A component's description: the service's own when it gives a non-empty one, else the
/// manufacturer, title and package that are known, joined by spaces.
pub open spec fn description_of(
    api_description: Option<Seq<char>>,
    manufacturer: Seq<char>,
    title: Seq<char>,
    package: Seq<char>,
) -> Seq<char> {
    match api_description {
        Some(d) => if d.len() > 0 {
            d
        } else {
            joined_nonempty(seq![manufacturer, title, package])
        },
        None => joined_nonempty(seq![manufacturer, title, package]),
    }
}

fn push_word(v: &mut Vec<char>, w: &str)
    ensures
        final(v)@ == if w@.len() == 0 {
            old(v)@
        } else if old(v)@.len() == 0 {
            w@
        } else {
            old(v)@.push(' ') + w@
        },
{
    let wc = chars_of(w);
    if wc.len() == 0 {
        return;
    }
    if v.len() > 0 {
        v.push(' ');
    }
    crate::text::extend_chars(v, wc.as_slice());
}

/// A component's description (see `description_of`).
pub fn component_description(
    api_description: Option<&str>,
    manufacturer: &str,
    title: &str,
    package: &str,
) -> (r: String)
    ensures
        r@ == description_of(
            match api_description {
                Some(d) => Some(d@),
                None => None,
            },
            manufacturer@,
            title@,
            package@,
        ),
{
    if let Some(d) = api_description {
        if !d.is_empty() {
            return string_from(chars_of(d).as_slice());
        }
    }
    let mut v: Vec<char> = Vec::new();
    let ghost p1 = seq![manufacturer@];
    let ghost p2 = seq![manufacturer@, title@];
    let ghost p3 = seq![manufacturer@, title@, package@];
    assert(p1.drop_last() =~= Seq::<Seq<char>>::empty());
    assert(p2.drop_last() =~= p1);
    assert(p3.drop_last() =~= p2);
    assert(joined_nonempty(Seq::<Seq<char>>::empty()) == Seq::<char>::empty());
    assert(v@ =~= Seq::<char>::empty());
    push_word(&mut v, manufacturer);
    assert(v@ == joined_nonempty(p1));
    push_word(&mut v, title);
    assert(v@ == joined_nonempty(p2));
    push_word(&mut v, package);
    assert(v@ == joined_nonempty(p3));
    string_from(v.as_slice())
}

/// A component's datasheet: the address the service gives, else the LCSC datasheet page
/// for its id when that is known, else nothing.
pub open spec fn datasheet_of(url: Option<Seq<char>>, title: Seq<char>, id: Option<u64>) -> Seq<char> {
    match url {
        Some(u) => u,
        None => match id {
            Some(i) => "https://item.szlcsc.com/datasheet/"@ + title + "/"@ + decimal(i as nat) + ".html"@,
            None => Seq::empty(),
        },
    }
}

/// A component's datasheet address (see `datasheet_of`).
pub fn datasheet_url(url: Option<&str>, title: &str, id: Option<u64>) -> (r: String)
    ensures
        r@ == datasheet_of(
            match url {
                Some(u) => Some(u@),
                None => None,
            },
            title@,
            id,
        ),
{
    match url {
        Some(u) => string_from(chars_of(u).as_slice()),
        None => match id {
            Some(i) => {
                let mut v: Vec<char> = Vec::new();
                extend_str(&mut v, "https://item.szlcsc.com/datasheet/");
                extend_str(&mut v, title);
                extend_str(&mut v, "/");
                let d = crate::text::decimal_string(i);
                extend_str(&mut v, d.as_str());
                extend_str(&mut v, ".html");
                string_from(v.as_slice())
            },
            None => String::new(),
        },
    }
}

/// The kinds of 3D model file the service serves.
pub open spec fn model_address(model_type: Seq<char>, uuid: Seq<char>) -> Option<Seq<char>> {
    if model_type == "OBJ"@ {
        Some("https://modules.easyeda.com/3dmodel/"@ + uuid)
    } else if model_type == "STEP"@ {
        Some("https://modules.easyeda.com/qAxj6KHrDKw4blvCG8QJPs7Y/"@ + uuid)
    } else {
        None
    }
}

/// Where a 3D model of kind `OBJ` or `STEP` is downloaded from; another kind is refused.
pub fn model_url(model_type: &str, uuid: &str) -> (r: Result<String, AppError>)
    ensures
        match model_address(model_type@, uuid@) {
            Some(a) => r is Ok && r->Ok_0@ == a,
            None => r matches Err(AppError::Easyeda(EasyedaError::InvalidData(m))) && m@
                == "Unknown model type: "@ + model_type@,
        },
{
    let mut v: Vec<char> = Vec::new();
    if crate::text::str_eq(model_type, "OBJ") {
        extend_str(&mut v, "https://modules.easyeda.com/3dmodel/");
    } else if crate::text::str_eq(model_type, "STEP") {
        extend_str(&mut v, "https://modules.easyeda.com/qAxj6KHrDKw4blvCG8QJPs7Y/");
    } else {
        extend_str(&mut v, "Unknown model type: ");
        extend_str(&mut v, model_type);
        return Err(AppError::Easyeda(EasyedaError::InvalidData(string_from(v.as_slice()))));
    }
    extend_str(&mut v, uuid);
    Ok(string_from(v.as_slice()))
}

/// How many times a download is tried.
pub open spec fn max_attempts() -> u32 {
    3
}

/// What to do after a failed download attempt.
#[derive(Debug, Clone, Copy, PartialEq, Eq)]
pub enum RetryDecision {
    /// Wait this many milliseconds and try again.
    RetryAfter(u64),
    /// Give up and report the failure.
    GiveUp,
}

/// The wait before attempt `attempt + 1`: one second, doubling with each attempt.
pub open spec fn backoff_ms(attempt: u32) -> nat {
    1000 * vstd::arithmetic::power2::pow2((attempt - 1) as nat)
}

/// After failed attempt `attempt` (counted from 1): give up at the last attempt, else wait
/// (see `backoff_ms`) and try again.
pub fn after_failed_attempt(attempt: u32) -> (r: RetryDecision)
    requires
        1 <= attempt <= max_attempts(),
    ensures
        attempt == max_attempts() ==> r == RetryDecision::GiveUp,
        attempt < max_attempts() ==> r == RetryDecision::RetryAfter(backoff_ms(attempt) as u64),
{
    if attempt >= 3 {
        RetryDecision::GiveUp
    } else if attempt == 1 {
        proof {
            vstd::arithmetic::power2::lemma2_to64();
        }
        RetryDecision::RetryAfter(1000)
    } else {
        proof {
            vstd::arithmetic::power2::lemma2_to64();
        }
        RetryDecision::RetryAfter(2000)
    }
}

/// The note a download attempt is announced with: nothing for the first, `(retry k/3)`
/// after.
pub fn retry_note(attempt: u32) -> (r: String)
    ensures
        r@ == if attempt > 1 {
            " (retry "@ + decimal(attempt as nat) + "/3)"@
        } else {
            Seq::<char>::empty()
        },
{
    if attempt > 1 {
        let mut v: Vec<char> = Vec::new();
        extend_str(&mut v, " (retry ");
        let d = crate::text::decimal_string(attempt as u64);
        extend_str(&mut v, d.as_str());
        extend_str(&mut v, "/3)");
        string_from(v.as_slice())
    } else {
        String::new()
    }
}

/// The error when the service keeps refusing a download.
pub fn download_failure(model_type: &str, uuid: &str) -> (r: AppError)
    ensures
        r matches AppError::Easyeda(EasyedaError::InvalidData(m)) && m@ == "Failed to download "@
            + model_type@ + ": "@ + uuid@,
{
    let mut v: Vec<char> = Vec::new();
    extend_str(&mut v, "Failed to download ");
    extend_str(&mut v, model_type);
    extend_str(&mut v, ": ");
    extend_str(&mut v, uuid);
    AppError::Easyeda(EasyedaError::InvalidData(string_from(v.as_slice())))
}

/// The 3D model a component's footprint names.
#[derive(Debug, Clone, PartialEq, Eq)]
pub struct Model3dInfo {
    pub uuid: String,
    pub title: String,
}

/// The `attrs` of a JSON object in `text`, as `serde_json` reads it: its `c_etype`,
/// `uuid` and `title` where they are strings; `None` when the text is not JSON or has no
/// `attrs`.
pub uninterp spec fn svg_node_attrs_of(text: Seq<char>) -> Option<(Option<Seq<char>>, Option<Seq<char>>, Option<Seq<char>>)>;

pub open spec fn opt_view(o: Option<String>) -> Option<Seq<char>> {
    match o {
        Some(s) => Some(s@),
        None => None,
    }
}

pub open spec fn attrs_view(r: Option<(Option<String>, Option<String>, Option<String>)>) -> Option<
    (Option<Seq<char>>, Option<Seq<char>>, Option<Seq<char>>),
> {
    match r {
        Some((a, b, c)) => Some((opt_view(a), opt_view(b), opt_view(c))),
        None => None,
    }
}

/// `serde_json::from_str` into a `Value`, then `get("attrs")` and `as_str` on three of its
/// members. The result is named by `svg_node_attrs_of`.
#[verifier::external_body]
fn svg_node_attrs(text: &str) -> (r: Option<(Option<String>, Option<String>, Option<String>)>)
    ensures
        attrs_view(r) == svg_node_attrs_of(text@),
{
    let value: serde_json::Value = serde_json::from_str(text).ok()?;
    let attrs = value.get("attrs")?;
    let c_etype = attrs.get("c_etype").and_then(|v| v.as_str()).map(|s| s.to_string());
    let uuid = attrs.get("uuid").and_then(|v| v.as_str()).map(|s| s.to_string());
    let title = attrs.get("title").and_then(|v| v.as_str()).map(|s| s.to_string());
    Some((c_etype, uuid, title))
}

/// `SVGNODE~`, the start of an SVG node shape.
pub open spec fn svg_node_prefix() -> Seq<char> {
    "SVGNODE~"@
}

/// The model the shape names: an SVG node shape whose JSON (the text between its first and
/// second `~`) has `attrs` with `c_etype` `outline3D`, a `uuid` and a `title`.
pub open spec fn shape_model(shape: Seq<char>) -> Option<(Seq<char>, Seq<char>)> {
    if starts_with(shape, svg_node_prefix()) {
        let parts = crate::text::split_on(shape, '~');
        if parts.len() <= 1 {
            None
        } else {
            match svg_node_attrs_of(parts[1]) {
                Some((Some(e), Some(u), Some(t))) => if e == "outline3D"@ {
                    Some((u, t))
                } else {
                    None
                },
                _ => None,
            }
        }
    } else {
        None
    }
}

/// The model named by the first shape that names one (see `shape_model`).
pub open spec fn first_model(shapes: Seq<Seq<char>>) -> Option<(Seq<char>, Seq<char>)>
    decreases shapes.len(),
{
    if shapes.len() == 0 {
        None
    } else {
        match shape_model(shapes[0]) {
            Some(m) => Some(m),
            None => first_model(shapes.drop_first()),
        }
    }
}

fn model_of_shape(shape: &str) -> (r: Option<Model3dInfo>)
    ensures
        match r {
            Some(m) => shape_model(shape@) == Some((m.uuid@, m.title@)),
            None => shape_model(shape@) is None,
        },
{
    let cs = chars_of(shape);
    let prefix = chars_of("SVGNODE~");
    if !crate::text::starts_with_chars(cs.as_slice(), prefix.as_slice()) {
        return None;
    }
    let parts = crate::text::split_chars(cs.as_slice(), '~');
    if parts.len() <= 1 {
        return None;
    }
    let json = string_from(parts[1].as_slice());
    match svg_node_attrs(json.as_str()) {
        Some((Some(e), Some(u), Some(t))) => {
            if crate::text::str_eq(e.as_str(), "outline3D") {
                Some(Model3dInfo { uuid: u, title: t })
            } else {
                None
            }
        },
        _ => None,
    }
}

/// The 3D model that a footprint's shapes name (see `first_model`).
pub fn extract_3d_model_from_svgnode(shapes: &[String]) -> (r: Option<Model3dInfo>)
    ensures
        match r {
            Some(m) => first_model(shapes@.map_values(|s: String| s@)) == Some((m.uuid@, m.title@)),
            None => first_model(shapes@.map_values(|s: String| s@)) is None,
        },
{
    let ghost sv = shapes@.map_values(|s: String| s@);
    let mut k: usize = 0;
    assert(sv.skip(0) =~= sv);
    while k < shapes.len()
        invariant
            k <= shapes.len(),
            sv == shapes@.map_values(|s: String| s@),
            first_model(sv) == first_model(sv.skip(k as int)),
        decreases shapes.len() - k,
    {
        assert(sv.skip(k as int)[0] == shapes@[k as int]@);
        assert(sv.skip(k as int).drop_first() =~= sv.skip(k + 1));
        match model_of_shape(shapes[k].as_str()) {
            Some(m) => return Some(m),
            None => {},
        }
        k = k + 1;
    }
    None
}


/// What an answer of the service holds, as far as the converter reads it: its `success`
/// flag, whether it has a `result` and the result a `dataStr`, and the values read from
/// them (an absent text parameter of the part's head reads as empty).
#[derive(Debug, Clone)]
pub struct ApiAnswer {
    pub success: bool,
    pub has_result: bool,
    pub has_data_str: bool,
    /// The result's `title`.
    pub title: Option<String>,
    /// The result's `description`.
    pub description: Option<String>,
    /// The head's `BOM_Manufacturer`.
    pub manufacturer: String,
    /// The head's `package`.
    pub package: String,
    /// The head's `BOM_JLCPCB Part Class`.
    pub jlc_id: String,
    /// The LCSC record's `url`.
    pub datasheet_url: Option<String>,
    /// The LCSC record's numeric `id`.
    pub szlcsc_id: Option<u64>,
    /// The symbol's shapes.
    pub shapes: Vec<String>,
    /// The package's (footprint's) shapes.
    pub package_shapes: Vec<String>,
}

/// What the converter knows of a component once the service has answered.
#[derive(Debug, Clone)]
pub struct ComponentData {
    pub lcsc_id: String,
    pub title: String,
    pub package: String,
    pub description: String,
    pub data_str: Vec<String>,
    pub package_detail: Vec<String>,
    pub model_3d: Option<Model3dInfo>,
    pub manufacturer: String,
    pub datasheet: String,
    pub jlc_id: String,
}

pub open spec fn texts(v: Seq<String>) -> Seq<Seq<char>> {
    v.map_values(|s: String| s@)
}

/// `d` is what answer `a` with title `title` says of component `lcsc_id`.
pub open spec fn describes_component(d: ComponentData, lcsc_id: Seq<char>, a: ApiAnswer, title: Seq<char>) -> bool {
    &&& d.lcsc_id@ == lcsc_id
    &&& d.title@ == title
    &&& d.package@ == a.package@
    &&& d.manufacturer@ == a.manufacturer@
    &&& d.jlc_id@ == a.jlc_id@
    &&& d.description@ == description_of(
        crate::pattern::opt_string_view(a.description),
        a.manufacturer@,
        title,
        a.package@,
    )
    &&& d.datasheet@ == datasheet_of(crate::pattern::opt_string_view(a.datasheet_url), title, a.szlcsc_id)
    &&& texts(d.data_str@) == texts(a.shapes@)
    &&& texts(d.package_detail@) == texts(a.package_shapes@)
    &&& match d.model_3d {
        Some(m) => first_model(texts(a.package_shapes@)) == Some((m.uuid@, m.title@)),
        None => first_model(texts(a.package_shapes@)) is None,
    }
}

fn invalid_data(message: &str) -> (r: AppError)
    ensures
        r matches AppError::Easyeda(EasyedaError::InvalidData(m)) && m@ == message@,
{
    AppError::Easyeda(EasyedaError::InvalidData(string_from(chars_of(message).as_slice())))
}

/// The component data of `lcsc_id` from the service's answer: refused as not found when
/// the answer is not a success, as invalid when it lacks its result, the result's
/// `dataStr` or its title (checked in that order); otherwise the answer's values with the
/// description, datasheet and 3D model derived from them.
pub fn component_data(lcsc_id: &str, answer: ApiAnswer) -> (r: Result<ComponentData, AppError>)
    ensures
        !answer.success ==> (r matches Err(AppError::Easyeda(EasyedaError::ComponentNotFound(m)))
            && m@ == lcsc_id@),
        answer.success && !answer.has_result ==> (r matches Err(
            AppError::Easyeda(EasyedaError::InvalidData(m)),
        ) && m@ == "Missing result field"@),
        answer.success && answer.has_result && !answer.has_data_str ==> (r matches Err(
            AppError::Easyeda(EasyedaError::InvalidData(m)),
        ) && m@ == "Missing dataStr field"@),
        answer.success && answer.has_result && answer.has_data_str && answer.title is None ==> (
        r matches Err(AppError::Easyeda(EasyedaError::InvalidData(m))) && m@ == "Missing title field"@),
        answer.success && answer.has_result && answer.has_data_str && answer.title is Some ==> (
        r matches Ok(d) && describes_component(d, lcsc_id@, answer, answer.title->Some_0@)),
{
    if !answer.success {
        return Err(AppError::Easyeda(EasyedaError::ComponentNotFound(string_from(chars_of(lcsc_id).as_slice()))));
    }
    if !answer.has_result {
        return Err(invalid_data("Missing result field"));
    }
    if !answer.has_data_str {
        return Err(invalid_data("Missing dataStr field"));
    }
    let ghost a = answer;
    let ApiAnswer {
        success: _,
        has_result: _,
        has_data_str: _,
        title,
        description,
        manufacturer,
        package,
        jlc_id,
        datasheet_url: url,
        szlcsc_id,
        shapes,
        package_shapes,
    } = answer;
    let title = match title {
        Some(t) => t,
        None => return Err(invalid_data("Missing title field")),
    };
    let description_text = match &description {
        Some(d) => component_description(Some(d.as_str()), manufacturer.as_str(), title.as_str(), package.as_str()),
        None => component_description(None, manufacturer.as_str(), title.as_str(), package.as_str()),
    };
    let datasheet = match &url {
        Some(u) => datasheet_url(Some(u.as_str()), title.as_str(), szlcsc_id),
        None => datasheet_url(None, title.as_str(), szlcsc_id),
    };
    let model_3d = extract_3d_model_from_svgnode(package_shapes.as_slice());
    let d = ComponentData {
        lcsc_id: string_from(chars_of(lcsc_id).as_slice()),
        title,
        package,
        description: description_text,
        data_str: shapes,
        package_detail: package_shapes,
        model_3d,
        manufacturer,
        datasheet,
        jlc_id,
    };
    proof {
        assert(texts(d.data_str@) == texts(a.shapes@));
        assert(texts(d.package_detail@) == texts(a.package_shapes@));
    }
    Ok(d)
}

} // verus!
