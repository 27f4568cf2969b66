//! The structured result of one analysis pass: a closed set of named
//! metadata fields and the two trim-count lists.

use vstd::prelude::*;
use vstd::string::*;
use crate::patterns::strs_view;

verus! {

/// The scalar metadata fields, each absent until its line is seen.
#[derive(Debug)]
pub struct FieldMap {
    pub xml_version: Option<String>,
    pub cm_version: Option<String>,
    pub aspect_canvas: Option<String>,
    pub aspect_image: Option<String>,
    pub frame_rate: Option<String>,
    pub mastering_monitor: Option<String>,
    pub max_fall: Option<String>,
    pub max_cll: Option<String>,
    pub color_primaries: Option<String>,
    pub white_point: Option<String>,
    pub color_space: Option<String>,
    pub eotf: Option<String>,
    pub signal_range: Option<String>,
}

/// Ghost image of a [`FieldMap`].
#[verifier::ext_equal]
pub struct FieldsView {
    pub xml_version: Option<Seq<char>>,
    pub cm_version: Option<Seq<char>>,
    pub aspect_canvas: Option<Seq<char>>,
    pub aspect_image: Option<Seq<char>>,
    pub frame_rate: Option<Seq<char>>,
    pub mastering_monitor: Option<Seq<char>>,
    pub max_fall: Option<Seq<char>>,
    pub max_cll: Option<Seq<char>>,
    pub color_primaries: Option<Seq<char>>,
    pub white_point: Option<Seq<char>>,
    pub color_space: Option<Seq<char>>,
    pub eotf: Option<Seq<char>>,
    pub signal_range: Option<Seq<char>>,
}

/// The view of an optional string value.
pub open spec fn opt_view(o: Option<String>) -> Option<Seq<char>> {
    match o {
        Some(s) => Some(s@),
        None => None,
    }
}

impl View for FieldMap {
    type V = FieldsView;

    open spec fn view(&self) -> FieldsView {
        FieldsView {
            xml_version: opt_view(self.xml_version),
            cm_version: opt_view(self.cm_version),
            aspect_canvas: opt_view(self.aspect_canvas),
            aspect_image: opt_view(self.aspect_image),
            frame_rate: opt_view(self.frame_rate),
            mastering_monitor: opt_view(self.mastering_monitor),
            max_fall: opt_view(self.max_fall),
            max_cll: opt_view(self.max_cll),
            color_primaries: opt_view(self.color_primaries),
            white_point: opt_view(self.white_point),
            color_space: opt_view(self.color_space),
            eotf: opt_view(self.eotf),
            signal_range: opt_view(self.signal_range),
        }
    }
}

/// The field map with every field absent.
pub open spec fn empty_fields() -> FieldsView {
    FieldsView {
        xml_version: None,
        cm_version: None,
        aspect_canvas: None,
        aspect_image: None,
        frame_rate: None,
        mastering_monitor: None,
        max_fall: None,
        max_cll: None,
        color_primaries: None,
        white_point: None,
        color_space: None,
        eotf: None,
        signal_range: None,
    }
}

impl FieldMap {
    /// A field map with every field absent.
    pub fn new() -> (r: FieldMap)
        ensures
            r@ == empty_fields(),
    {
        FieldMap {
            xml_version: None,
            cm_version: None,
            aspect_canvas: None,
            aspect_image: None,
            frame_rate: None,
            mastering_monitor: None,
            max_fall: None,
            max_cll: None,
            color_primaries: None,
            white_point: None,
            color_space: None,
            eotf: None,
            signal_range: None,
        }
    }
}

/// The two ordered lists of trim-count digit strings, one per trim layer.
#[derive(Debug)]
pub struct TrimList {
    pub l2: Vec<String>,
    pub l8: Vec<String>,
}

/// Ghost image of a [`TrimList`].
#[verifier::ext_equal]
pub struct TrimListView {
    pub l2: Seq<Seq<char>>,
    pub l8: Seq<Seq<char>>,
}

impl View for TrimList {
    type V = TrimListView;

    open spec fn view(&self) -> TrimListView {
        TrimListView { l2: strs_view(self.l2@), l8: strs_view(self.l8@) }
    }
}

/// The complete structured output of one analysis pass.
#[derive(Debug)]
pub struct TrimListResponse {
    pub xml_data: FieldMap,
    pub trim_list: TrimList,
}

/// Ghost image of a [`TrimListResponse`].
#[verifier::ext_equal]
pub struct ResponseView {
    pub xml_data: FieldsView,
    pub trim_list: TrimListView,
}

impl View for TrimListResponse {
    type V = ResponseView;

    open spec fn view(&self) -> ResponseView {
        ResponseView { xml_data: self.xml_data@, trim_list: self.trim_list@ }
    }
}

/// The response with no field set and both trim lists empty.
pub open spec fn empty_response() -> ResponseView {
    ResponseView {
        xml_data: empty_fields(),
        trim_list: TrimListView { l2: Seq::<Seq<char>>::empty(), l8: Seq::<Seq<char>>::empty() },
    }
}

impl TrimListResponse {
    /// A response with no field set and both trim lists empty.
    pub fn new() -> (r: TrimListResponse)
        ensures
            r@ == empty_response(),
    {
        let r = TrimListResponse {
            xml_data: FieldMap::new(),
            trim_list: TrimList { l2: Vec::new(), l8: Vec::new() },
        };
        proof {
            assert(strs_view(Seq::<String>::empty()) =~= Seq::<Seq<char>>::empty());
            assert(r@ =~= empty_response());
        }
        r
    }
}

/// The pairs contributed by one field: its fixed name and its value, or
/// nothing while the field is absent.
pub open spec fn opt_pair(k: Seq<char>, o: Option<Seq<char>>) -> Seq<(Seq<char>, Seq<char>)> {
    match o {
        Some(x) => seq![(k, x)],
        None => Seq::<(Seq<char>, Seq<char>)>::empty(),
    }
}

/// The key/value pairs of a field map, in a fixed field order, with
/// absent fields contributing nothing.
pub open spec fn pairs_view(f: FieldsView) -> Seq<(Seq<char>, Seq<char>)> {
    opt_pair("XML Version"@, f.xml_version) + opt_pair("Level 254 CM Version"@, f.cm_version)
        + opt_pair("Global Aspect Ratio (Canvas)"@, f.aspect_canvas) + opt_pair(
        "Global Aspect Ratio (Image)"@,
        f.aspect_image,
    ) + opt_pair("Frame Rate"@, f.frame_rate) + opt_pair(
        "Mastering Monitor"@,
        f.mastering_monitor,
    ) + opt_pair("Level 6 MaxFALL"@, f.max_fall) + opt_pair("Level 6 MaxCLL"@, f.max_cll)
        + opt_pair("Color Primaries"@, f.color_primaries) + opt_pair(
        "White Point"@,
        f.white_point,
    ) + opt_pair("Color Space"@, f.color_space) + opt_pair("EOTF"@, f.eotf) + opt_pair(
        "Signal Range"@,
        f.signal_range,
    )
}

/// The views of a sequence of string pairs.
pub open spec fn pairs_of(ps: Seq<(String, String)>) -> Seq<(Seq<char>, Seq<char>)> {
    Seq::new(ps.len(), |i: int| (ps[i].0@, ps[i].1@))
}

impl FieldMap {
    /// The key/value pairs of the matched fields, in a fixed field order;
    /// absent fields are left out.
    pub fn to_pairs(&self) -> (r: Vec<(String, String)>)
        ensures
            pairs_of(r@) == pairs_view(self@),
    {
        let mut out: Vec<(String, String)> = Vec::new();
        push_pair(&mut out, "XML Version", &self.xml_version);
        push_pair(&mut out, "Level 254 CM Version", &self.cm_version);
        push_pair(&mut out, "Global Aspect Ratio (Canvas)", &self.aspect_canvas);
        push_pair(&mut out, "Global Aspect Ratio (Image)", &self.aspect_image);
        push_pair(&mut out, "Frame Rate", &self.frame_rate);
        push_pair(&mut out, "Mastering Monitor", &self.mastering_monitor);
        push_pair(&mut out, "Level 6 MaxFALL", &self.max_fall);
        push_pair(&mut out, "Level 6 MaxCLL", &self.max_cll);
        push_pair(&mut out, "Color Primaries", &self.color_primaries);
        push_pair(&mut out, "White Point", &self.white_point);
        push_pair(&mut out, "Color Space", &self.color_space);
        push_pair(&mut out, "EOTF", &self.eotf);
        push_pair(&mut out, "Signal Range", &self.signal_range);
        proof {
            assert(pairs_of(out@) =~= pairs_view(self@));
        }
        out
    }
}

/// Appends the pair of one field, or nothing while the field is absent.
fn push_pair(out: &mut Vec<(String, String)>, k: &str, o: &Option<String>)
    ensures
        pairs_of(final(out)@) == pairs_of(old(out)@) + opt_pair(k@, opt_view(*o)),
{
    match o {
        Some(x) => {
            let pair = (String::from_str(k), x.clone());
            out.push(pair);
            proof {
                assert(pairs_of(out@) =~= pairs_of(old(out)@) + opt_pair(k@, opt_view(*o)));
            }
        },
        None => {
            proof {
                assert(pairs_of(out@) =~= pairs_of(old(out)@) + opt_pair(k@, opt_view(*o)));
            }
        },
    }
}

} // verus!
