//! Save-file parsing and typed player data.
//!
//! The decrypted plaintext is UTF-8 JSON.  Its `playerData` object is
//! projected into a [`PlayerData`] record: every scalar field is read
//! with one read-or-default combinator, so a missing or mistyped member
//! yields the field's documented default instead of an error.  The tool
//! collection is decoded best-effort, entry by entry.

use vstd::prelude::*;
use vstd::string::StringExecFns;
use vstd::utf8::decode_utf8;
use vstd::utf8::valid_utf8;

use crate::json::json_parse_of;
use crate::json::parse_json_text;
use crate::json::spec_get;
use crate::json::JsonNumber;
use crate::json::JsonValue;
use crate::num::dec_u64;
use crate::num::number_as_i64;
use crate::num::number_parts;
use crate::num::pad2_u64;
use crate::num::spec_dec;
use crate::num::spec_num_as_i64;
use crate::num::spec_number_parts;
use crate::num::spec_pad2;
use crate::num::Frac;
use crate::num::NumberParts;

verus! {

/// Errors of the parsing stage.
#[derive(Clone, Copy, Debug, PartialEq, Eq, Structural)]
pub enum ParseError {
    /// The decrypted bytes are not valid UTF-8.
    InvalidEncoding,
    /// The decrypted text is not a JSON document.
    MalformedDocument,
}

impl ParseError {
    /// A human-readable cause for this error.
    pub fn message(&self) -> (m: &'static str)
        ensures
            match self {
                ParseError::InvalidEncoding => m@ == "decrypted data is not valid UTF-8"@,
                ParseError::MalformedDocument => m@ == "decrypted text is not valid JSON"@,
            },
    {
        match self {
            ParseError::InvalidEncoding => "decrypted data is not valid UTF-8",
            ParseError::MalformedDocument => "decrypted text is not valid JSON",
        }
    }
}

/// A complete decoded save file: the typed record and the whole document.
#[derive(Debug, PartialEq)]
pub struct SaveFile {
    pub player_data: PlayerData,
    pub raw_json: JsonValue,
}

/// The typed projection of the document's `playerData` object.
#[derive(Debug, PartialEq)]
pub struct PlayerData {
    pub version: String,
    pub permadeath_mode: bool,
    pub completion_percentage: JsonNumber,
    pub play_time_seconds: JsonNumber,
    // Health and resources
    pub health: i64,
    pub max_health: i64,
    pub silk: i64,
    pub max_silk: i64,
    pub silk_regen_max: i64,
    pub geo: i64,
    pub shell_shards: i64,
    // Location
    pub current_area: String,
    pub map_zone: i64,
    pub at_bench: bool,
    // Equipment
    pub current_crest_id: String,
    // Respawn
    pub respawn_scene: String,
    pub respawn_type: i64,
    pub respawn_marker_name: String,
    // Tools
    pub tools: Vec<Tool>,
}

/// A tool or ability, by name, with its state.
#[derive(Debug, PartialEq)]
pub struct Tool {
    pub name: String,
    pub data: ToolData,
}

/// The state flags of one tool.
#[derive(Clone, Copy, Debug, PartialEq, Eq, Structural)]
pub struct ToolData {
    pub amount_left: u32,
    pub has_been_seen: bool,
    pub has_been_selected: bool,
    pub is_hidden: bool,
    pub is_unlocked: bool,
}

/// Aggregate counts over the tool collection.
#[derive(Clone, Copy, Debug, PartialEq, Eq, Structural)]
pub struct ToolStats {
    pub total: usize,
    pub seen: usize,
    pub selected: usize,
    pub unlocked: usize,
}

impl Default for ToolStats {
    /// All counts start at zero.
    fn default() -> (r: ToolStats)
        ensures
            r == (ToolStats { total: 0, seen: 0, selected: 0, unlocked: 0 }),
    {
        ToolStats { total: 0, seen: 0, selected: 0, unlocked: 0 }
    }
}

// ---------------------------------------------------------------------------
// Read-or-default combinators
// ---------------------------------------------------------------------------

/// The string member named `key`, or the empty string.
pub open spec fn spec_str_field(v: JsonValue, key: Seq<char>) -> Seq<char> {
    match spec_get(v, key) {
        Some(JsonValue::Str(s)) => s@,
        _ => Seq::<char>::empty(),
    }
}

/// The boolean member named `key`, or `false`.
pub open spec fn spec_bool_field(v: JsonValue, key: Seq<char>) -> bool {
    match spec_get(v, key) {
        Some(JsonValue::Bool(b)) => b,
        _ => false,
    }
}

/// The integer member named `key`, or `0`: a number member counts only
/// when it is a plain integer literal fitting `i64`.
pub open spec fn spec_int_field(v: JsonValue, key: Seq<char>) -> i64 {
    match spec_get(v, key) {
        Some(JsonValue::Num(n)) => match spec_num_as_i64(n.text@) {
            Some(x) => x,
            None => 0,
        },
        _ => 0,
    }
}

/// The literal text of the number member named `key`, or `"0"`.
pub open spec fn spec_num_field_text(v: JsonValue, key: Seq<char>) -> Seq<char> {
    match spec_get(v, key) {
        Some(JsonValue::Num(n)) => n.text@,
        _ => seq!['0'],
    }
}

fn get_str_or(v: &JsonValue, key: &String) -> (r: String)
    ensures
        r@ == spec_str_field(*v, key@),
{
    match v.get(key) {
        Some(JsonValue::Str(s)) => s.clone(),
        _ => String::new(),
    }
}

fn get_bool_or(v: &JsonValue, key: &String) -> (r: bool)
    ensures
        r == spec_bool_field(*v, key@),
{
    match v.get(key) {
        Some(JsonValue::Bool(b)) => *b,
        _ => false,
    }
}

fn get_i64_or(v: &JsonValue, key: &String) -> (r: i64)
    ensures
        r == spec_int_field(*v, key@),
{
    match v.get(key) {
        Some(JsonValue::Num(n)) => match number_as_i64(n.text.as_str()) {
            Some(x) => x,
            None => 0,
        },
        _ => 0,
    }
}

fn get_num_or(v: &JsonValue, key: &String) -> (r: JsonNumber)
    ensures
        r.text@ == spec_num_field_text(*v, key@),
{
    match v.get(key) {
        Some(JsonValue::Num(n)) => JsonNumber { text: String::from_str(n.text.as_str()) },
        _ => {
            proof {
                reveal_strlit("0");
            }
            JsonNumber { text: String::from_str("0") }
        },
    }
}

// ---------------------------------------------------------------------------
// Time formatting
// ---------------------------------------------------------------------------

/// The displayed seconds: the whole seconds below one minute, rounded by
/// the fractional part, ties to the even neighbour.
pub open spec fn spec_rounded_secs(p: NumberParts) -> int {
    let base = (p.whole as int) % 60;
    let inc: int = match p.frac {
        Frac::AboveHalf => 1,
        Frac::Half => if base % 2 == 1 {
            1int
        } else {
            0int
        },
        _ => 0,
    };
    base + inc
}

/// The `HHh MMm SSs` display of a number of seconds.  A negative value
/// keeps zero hours and minutes and shows its rounded seconds signed.
pub open spec fn spec_hms_chars(p: NumberParts) -> Seq<char> {
    if p.neg {
        seq!['0', '0', 'h', ' ', '0', '0', 'm', ' ', '-'] + spec_dec(spec_rounded_secs(p)) + seq![
            's',
        ]
    } else {
        spec_pad2((p.whole as int) / 3600) + seq!['h', ' '] + spec_pad2(
            ((p.whole as int) % 3600) / 60,
        ) + seq!['m', ' '] + spec_pad2(spec_rounded_secs(p)) + seq!['s']
    }
}

/// The display of a play-time literal: its reading, formatted.
pub open spec fn spec_seconds_to_hms(text: Seq<char>) -> Seq<char> {
    spec_hms_chars(spec_number_parts(text))
}

/// Format a play-time in seconds as `HHh MMm SSs`.
///
/// Hours come from integer division by 3600, minutes from the remainder
/// divided by 60, and the remaining seconds are rounded to a whole
/// number, ties to the even neighbour.  Text that is not a number
/// formats as `00h 00m 00s`.
pub fn seconds_to_hms(seconds: &JsonNumber) -> (s: String)
    ensures
        s@ == spec_seconds_to_hms(seconds.text@),
{
    let p = number_parts(seconds.text.as_str());
    let base: u64 = p.whole % 60;
    let inc: u64 = match p.frac {
        Frac::AboveHalf => 1,
        Frac::Half => if base % 2 == 1 {
            1
        } else {
            0
        },
        _ => 0,
    };
    let secs: u64 = base + inc;
    proof {
        assert(secs as int == spec_rounded_secs(p));
    }
    if p.neg {
        proof {
            reveal_strlit("00h 00m -");
            reveal_strlit("s");
        }
        let mut s = String::from_str("00h 00m -");
        let d = dec_u64(secs);
        s.append(d.as_str());
        s.append("s");
        proof {
            assert(s@ =~= spec_hms_chars(p));
        }
        s
    } else {
        proof {
            reveal_strlit("h ");
            reveal_strlit("m ");
            reveal_strlit("s");
        }
        let mut s = pad2_u64(p.whole / 3600);
        s.append("h ");
        let m = pad2_u64((p.whole % 3600) / 60);
        s.append(m.as_str());
        s.append("m ");
        let sec_str = pad2_u64(secs);
        s.append(sec_str.as_str());
        s.append("s");
        proof {
            assert(s@ =~= spec_hms_chars(p));
        }
        s
    }
}

// ---------------------------------------------------------------------------
// Tool entries
// ---------------------------------------------------------------------------

/// The state a tool entry's `Data` member decodes to, if it is an object
/// holding an `AmountLeft` integer within `u32` and the four flags as
/// booleans.
pub open spec fn spec_tool_data_of(d: JsonValue) -> Option<ToolData> {
    match (
        spec_get(d, "AmountLeft"@),
        spec_get(d, "HasBeenSeen"@),
        spec_get(d, "HasBeenSelected"@),
        spec_get(d, "IsHidden"@),
        spec_get(d, "IsUnlocked"@),
    ) {
        (
            Some(JsonValue::Num(am)),
            Some(JsonValue::Bool(seen)),
            Some(JsonValue::Bool(sel)),
            Some(JsonValue::Bool(hid)),
            Some(JsonValue::Bool(unl)),
        ) => {
            match spec_num_as_i64(am.text@) {
                Some(x) => if 0 <= x <= u32::MAX {
                    Some(
                        ToolData {
                            amount_left: x as u32,
                            has_been_seen: seen,
                            has_been_selected: sel,
                            is_hidden: hid,
                            is_unlocked: unl,
                        },
                    )
                } else {
                    None
                },
                None => None,
            }
        },
        _ => None,
    }
}

/// The name and state a whole tool entry decodes to, if its `Name` is a
/// string and its `Data` decodes.
pub open spec fn spec_tool_fields(v: JsonValue) -> Option<(Seq<char>, ToolData)> {
    match spec_get(v, "Name"@) {
        Some(JsonValue::Str(nm)) => match spec_get(v, "Data"@) {
            Some(d) => match spec_tool_data_of(d) {
                Some(td) => Some((nm@, td)),
                None => None,
            },
            None => None,
        },
        _ => None,
    }
}

/// Does `t` carry exactly what the entry `v` decodes to?
pub open spec fn tool_decodes(v: JsonValue, t: Tool) -> bool {
    match spec_tool_fields(v) {
        Some(ftd) => t.name@ == ftd.0 && t.data == ftd.1,
        None => false,
    }
}

/// `out` is the in-order decoding of `src`: every entry that decodes
/// contributes its tool, every entry that does not is skipped.
pub open spec fn tools_decode_rel(src: Seq<JsonValue>, out: Seq<Tool>) -> bool
    decreases src.len(),
{
    if src.len() == 0 {
        out.len() == 0
    } else if spec_tool_fields(src[0]) is Some {
        &&& out.len() > 0
        &&& tool_decodes(src[0], out[0])
        &&& tools_decode_rel(src.drop_first(), out.drop_first())
    } else {
        tools_decode_rel(src.drop_first(), out)
    }
}

proof fn lemma_tools_rel_push_ok(src: Seq<JsonValue>, out: Seq<Tool>, v: JsonValue, t: Tool)
    requires
        tools_decode_rel(src, out),
        tool_decodes(v, t),
    ensures
        tools_decode_rel(src.push(v), out.push(t)),
    decreases src.len(),
{
    if src.len() == 0 {
        assert(src.push(v)[0] == v);
        assert(out.push(t)[0] == t);
        assert(src.push(v).drop_first() =~= src);
        assert(out.push(t).drop_first() =~= out);
    } else {
        assert(src.push(v)[0] == src[0]);
        assert(src.push(v).drop_first() =~= src.drop_first().push(v));
        if spec_tool_fields(src[0]) is Some {
            assert(out.len() > 0);
            assert(out.push(t)[0] == out[0]);
            assert(out.push(t).drop_first() =~= out.drop_first().push(t));
            lemma_tools_rel_push_ok(src.drop_first(), out.drop_first(), v, t);
        } else {
            lemma_tools_rel_push_ok(src.drop_first(), out, v, t);
        }
    }
}

proof fn lemma_tools_rel_push_skip(src: Seq<JsonValue>, out: Seq<Tool>, v: JsonValue)
    requires
        tools_decode_rel(src, out),
        spec_tool_fields(v) is None,
    ensures
        tools_decode_rel(src.push(v), out),
    decreases src.len(),
{
    if src.len() == 0 {
        assert(src.push(v)[0] == v);
        assert(src.push(v).drop_first() =~= src);
    } else {
        assert(src.push(v)[0] == src[0]);
        assert(src.push(v).drop_first() =~= src.drop_first().push(v));
        if spec_tool_fields(src[0]) is Some {
            assert(out.len() > 0);
            assert(src.push(v).drop_first()[0] == src.drop_first().push(v)[0]);
            lemma_tools_rel_push_skip(src.drop_first(), out.drop_first(), v);
        } else {
            lemma_tools_rel_push_skip(src.drop_first(), out, v);
        }
    }
}

/// The decoded collection never outgrows its source: a skipped entry
/// contributes nothing and a decoded entry exactly one tool.
pub proof fn lemma_tools_len_le(src: Seq<JsonValue>, out: Seq<Tool>)
    requires
        tools_decode_rel(src, out),
    ensures
        out.len() <= src.len(),
    decreases src.len(),
{
    if src.len() > 0 {
        if spec_tool_fields(src[0]) is Some {
            lemma_tools_len_le(src.drop_first(), out.drop_first());
        } else {
            lemma_tools_len_le(src.drop_first(), out);
        }
    }
}

/// When every entry decodes, the collection keeps the source's length
/// and order: position by position, the tool is its entry's decoding.
pub proof fn lemma_tools_complete(src: Seq<JsonValue>, out: Seq<Tool>)
    requires
        tools_decode_rel(src, out),
        forall|i: int| 0 <= i < src.len() ==> spec_tool_fields(#[trigger] src[i]) is Some,
    ensures
        out.len() == src.len(),
        forall|i: int| 0 <= i < out.len() ==> tool_decodes(src[i], #[trigger] out[i]),
    decreases src.len(),
{
    if src.len() > 0 {
        assert(spec_tool_fields(src[0]) is Some);
        assert forall|i: int| 0 <= i < src.drop_first().len() implies spec_tool_fields(
            #[trigger] src.drop_first()[i],
        ) is Some by {
            assert(src.drop_first()[i] == src[i + 1]);
        }
        lemma_tools_complete(src.drop_first(), out.drop_first());
        assert forall|i: int| 0 <= i < out.len() implies tool_decodes(
            src[i],
            #[trigger] out[i],
        ) by {
            if i > 0 {
                assert(out.drop_first()[i - 1] == out[i]);
                assert(src.drop_first()[i - 1] == src[i]);
            }
        }
    }
}

/// Two decodings of the same source agree, name for name and state for
/// state.
pub proof fn lemma_tools_rel_deterministic(src: Seq<JsonValue>, o1: Seq<Tool>, o2: Seq<Tool>)
    requires
        tools_decode_rel(src, o1),
        tools_decode_rel(src, o2),
    ensures
        o1.len() == o2.len(),
        forall|i: int|
            0 <= i < o1.len() ==> #[trigger] o1[i].name@ == o2[i].name@ && o1[i].data == o2[i].data,
    decreases src.len(),
{
    if src.len() == 0 {
    } else if spec_tool_fields(src[0]) is Some {
        lemma_tools_rel_deterministic(src.drop_first(), o1.drop_first(), o2.drop_first());
        assert forall|i: int| 0 <= i < o1.len() implies #[trigger] o1[i].name@ == o2[i].name@
            && o1[i].data == o2[i].data by {
            if i > 0 {
                assert(o1.drop_first()[i - 1] == o1[i]);
                assert(o2.drop_first()[i - 1] == o2[i]);
            }
        }
    } else {
        lemma_tools_rel_deterministic(src.drop_first(), o1, o2);
    }
}

fn decode_tool_data(d: &JsonValue) -> (r: Option<ToolData>)
    ensures
        r == spec_tool_data_of(*d),
{
    let amount: u32 = match d.get(&String::from_str("AmountLeft")) {
        Some(JsonValue::Num(n)) => match number_as_i64(n.text.as_str()) {
            Some(x) => {
                if 0 <= x && x <= u32::MAX as i64 {
                    x as u32
                } else {
                    return None;
                }
            },
            None => {
                return None;
            },
        },
        _ => {
            return None;
        },
    };
    let seen: bool = match d.get(&String::from_str("HasBeenSeen")) {
        Some(JsonValue::Bool(b)) => *b,
        _ => {
            return None;
        },
    };
    let sel: bool = match d.get(&String::from_str("HasBeenSelected")) {
        Some(JsonValue::Bool(b)) => *b,
        _ => {
            return None;
        },
    };
    let hid: bool = match d.get(&String::from_str("IsHidden")) {
        Some(JsonValue::Bool(b)) => *b,
        _ => {
            return None;
        },
    };
    let unl: bool = match d.get(&String::from_str("IsUnlocked")) {
        Some(JsonValue::Bool(b)) => *b,
        _ => {
            return None;
        },
    };
    Some(
        ToolData {
            amount_left: amount,
            has_been_seen: seen,
            has_been_selected: sel,
            is_hidden: hid,
            is_unlocked: unl,
        },
    )
}

fn decode_tool(v: &JsonValue) -> (r: Option<Tool>)
    ensures
        match r {
            Some(t) => tool_decodes(*v, t),
            None => spec_tool_fields(*v) is None,
        },
{
    let nm: String = match v.get(&String::from_str("Name")) {
        Some(JsonValue::Str(s)) => s.clone(),
        _ => {
            return None;
        },
    };
    let dv = match v.get(&String::from_str("Data")) {
        Some(d) => d,
        None => {
            return None;
        },
    };
    match decode_tool_data(dv) {
        Some(td) => Some(Tool { name: nm, data: td }),
        None => None,
    }
}

fn decode_tools(arr: &Vec<JsonValue>) -> (r: Vec<Tool>)
    ensures
        tools_decode_rel(arr@, r@),
{
    let mut out: Vec<Tool> = Vec::new();
    let n = arr.len();
    let mut i: usize = 0;
    proof {
        assert(arr@.take(0) =~= Seq::<JsonValue>::empty());
    }
    while i < n
        invariant
            i <= n,
            n == arr@.len(),
            tools_decode_rel(arr@.take(i as int), out@),
        decreases n - i,
    {
        match decode_tool(&arr[i]) {
            Some(t) => {
                let ghost prev_out = out@;
                let ghost tt = t;
                out.push(t);
                proof {
                    lemma_tools_rel_push_ok(arr@.take(i as int), prev_out, arr@[i as int], tt);
                    assert(arr@.take(i as int).push(arr@[i as int]) =~= arr@.take(i + 1));
                }
            },
            None => {
                proof {
                    lemma_tools_rel_push_skip(arr@.take(i as int), out@, arr@[i as int]);
                    assert(arr@.take(i as int).push(arr@[i as int]) =~= arr@.take(i + 1));
                }
            },
        }
        i = i + 1;
    }
    proof {
        assert(arr@.take(n as int) =~= arr@);
    }
    out
}

// ---------------------------------------------------------------------------
// The player record
// ---------------------------------------------------------------------------

/// The `playerData.Tools.savedData` array, if it is one.
pub open spec fn spec_tools_array(v: JsonValue) -> Option<Seq<JsonValue>> {
    match spec_get(v, "Tools"@) {
        Some(t) => match spec_get(t, "savedData"@) {
            Some(JsonValue::Arr(a)) => Some(a@),
            _ => None,
        },
        None => None,
    }
}

/// Does the record `pd` hold exactly the projection of the object `v`:
/// every scalar by its read-or-default combinator, and the tools by the
/// best-effort decoding of the saved array, empty when there is none?
pub open spec fn player_data_matches(pd: PlayerData, v: JsonValue) -> bool {
    &&& pd.version@ == spec_str_field(v, "version"@)
    &&& pd.permadeath_mode == spec_bool_field(v, "permadeathMode"@)
    &&& pd.completion_percentage.text@ == spec_num_field_text(v, "completionPercentage"@)
    &&& pd.play_time_seconds.text@ == spec_num_field_text(v, "playTime"@)
    &&& pd.health == spec_int_field(v, "health"@)
    &&& pd.max_health == spec_int_field(v, "maxHealth"@)
    &&& pd.silk == spec_int_field(v, "silk"@)
    &&& pd.max_silk == spec_int_field(v, "silkMax"@)
    &&& pd.silk_regen_max == spec_int_field(v, "silkRegenMax"@)
    &&& pd.geo == spec_int_field(v, "geo"@)
    &&& pd.shell_shards == spec_int_field(v, "ShellShards"@)
    &&& pd.current_area@ == spec_str_field(v, "currentArea"@)
    &&& pd.map_zone == spec_int_field(v, "mapZone"@)
    &&& pd.at_bench == spec_bool_field(v, "atBench"@)
    &&& pd.current_crest_id@ == spec_str_field(v, "CurrentCrestID"@)
    &&& pd.respawn_scene@ == spec_str_field(v, "respawnScene"@)
    &&& pd.respawn_type == spec_int_field(v, "respawnType"@)
    &&& pd.respawn_marker_name@ == spec_str_field(v, "respawnMarkerName"@)
    &&& match spec_tools_array(v) {
        Some(a) => tools_decode_rel(a, pd.tools@),
        None => pd.tools@.len() == 0,
    }
}

impl PlayerData {
    /// Project a `playerData` object into a typed record.  No member is
    /// required: a missing or mistyped member yields its default, and a
    /// malformed tool entry is skipped.  This projection never fails.
    pub fn from_json(json: &JsonValue) -> (r: Result<PlayerData, ParseError>)
        ensures
            r matches Ok(pd) && player_data_matches(pd, *json),
    {
        let tools: Vec<Tool> = match json.get(&String::from_str("Tools")) {
            Some(t) => match t.get(&String::from_str("savedData")) {
                Some(JsonValue::Arr(a)) => decode_tools(a),
                _ => Vec::new(),
            },
            None => Vec::new(),
        };
        Ok(
            PlayerData {
                version: get_str_or(json, &String::from_str("version")),
                permadeath_mode: get_bool_or(json, &String::from_str("permadeathMode")),
                completion_percentage: get_num_or(
                    json,
                    &String::from_str("completionPercentage"),
                ),
                play_time_seconds: get_num_or(json, &String::from_str("playTime")),
                health: get_i64_or(json, &String::from_str("health")),
                max_health: get_i64_or(json, &String::from_str("maxHealth")),
                silk: get_i64_or(json, &String::from_str("silk")),
                max_silk: get_i64_or(json, &String::from_str("silkMax")),
                silk_regen_max: get_i64_or(json, &String::from_str("silkRegenMax")),
                geo: get_i64_or(json, &String::from_str("geo")),
                shell_shards: get_i64_or(json, &String::from_str("ShellShards")),
                current_area: get_str_or(json, &String::from_str("currentArea")),
                map_zone: get_i64_or(json, &String::from_str("mapZone")),
                at_bench: get_bool_or(json, &String::from_str("atBench")),
                current_crest_id: get_str_or(json, &String::from_str("CurrentCrestID")),
                respawn_scene: get_str_or(json, &String::from_str("respawnScene")),
                respawn_type: get_i64_or(json, &String::from_str("respawnType")),
                respawn_marker_name: get_str_or(json, &String::from_str("respawnMarkerName")),
                tools,
            },
        )
    }
}

// ---------------------------------------------------------------------------
// Tool statistics
// ---------------------------------------------------------------------------

/// How many tools have been seen.
pub open spec fn spec_count_seen(s: Seq<Tool>) -> int
    decreases s.len(),
{
    if s.len() == 0 {
        0int
    } else {
        spec_count_seen(s.drop_last()) + if s.last().data.has_been_seen {
            1int
        } else {
            0int
        }
    }
}

/// How many tools have been selected.
pub open spec fn spec_count_selected(s: Seq<Tool>) -> int
    decreases s.len(),
{
    if s.len() == 0 {
        0int
    } else {
        spec_count_selected(s.drop_last()) + if s.last().data.has_been_selected {
            1int
        } else {
            0int
        }
    }
}

/// How many tools are unlocked.
pub open spec fn spec_count_unlocked(s: Seq<Tool>) -> int
    decreases s.len(),
{
    if s.len() == 0 {
        0int
    } else {
        spec_count_unlocked(s.drop_last()) + if s.last().data.is_unlocked {
            1int
        } else {
            0int
        }
    }
}

impl PlayerData {
    /// Fold the tool collection into its aggregate counts.
    pub fn tool_stats(&self) -> (r: ToolStats)
        ensures
            r.total == self.tools@.len(),
            r.seen as int == spec_count_seen(self.tools@),
            r.selected as int == spec_count_selected(self.tools@),
            r.unlocked as int == spec_count_unlocked(self.tools@),
    {
        let mut stats = ToolStats::default();
        let n = self.tools.len();
        let mut i: usize = 0;
        proof {
            assert(self.tools@.take(0) =~= Seq::<Tool>::empty());
        }
        while i < n
            invariant
                i <= n,
                n == self.tools@.len(),
                stats.total == i,
                stats.seen <= i,
                stats.selected <= i,
                stats.unlocked <= i,
                stats.seen as int == spec_count_seen(self.tools@.take(i as int)),
                stats.selected as int == spec_count_selected(self.tools@.take(i as int)),
                stats.unlocked as int == spec_count_unlocked(self.tools@.take(i as int)),
            decreases n - i,
        {
            proof {
                assert(self.tools@.take(i + 1).drop_last() =~= self.tools@.take(i as int));
                assert(self.tools@.take(i + 1).last() == self.tools@[i as int]);
            }
            stats.total = stats.total + 1;
            if self.tools[i].data.has_been_seen {
                stats.seen = stats.seen + 1;
            }
            if self.tools[i].data.has_been_selected {
                stats.selected = stats.selected + 1;
            }
            if self.tools[i].data.is_unlocked {
                stats.unlocked = stats.unlocked + 1;
            }
            i = i + 1;
        }
        proof {
            assert(self.tools@.take(n as int) =~= self.tools@);
        }
        stats
    }

    /// The play time formatted as `HHh MMm SSs`.
    pub fn play_time_formatted(&self) -> (s: String)
        ensures
            s@ == spec_seconds_to_hms(self.play_time_seconds.text@),
    {
        seconds_to_hms(&self.play_time_seconds)
    }
}

// ---------------------------------------------------------------------------
// Whole-document parsing
// ---------------------------------------------------------------------------

/// The `playerData` member of a document, or `Null` when there is none:
/// projecting `Null` yields the all-default record.
pub open spec fn spec_player_obj(doc: JsonValue) -> JsonValue {
    match spec_get(doc, "playerData"@) {
        Some(p) => p,
        None => JsonValue::Null,
    }
}

/// How an executable outcome of the parsing stage relates to the
/// plaintext bytes: invalid UTF-8 and non-JSON text are the two errors,
/// and a success carries the whole document with the projected record.
pub open spec fn parse_result_matches(bytes: Seq<u8>, r: Result<SaveFile, ParseError>) -> bool {
    if !valid_utf8(bytes) {
        r matches Err(e) && e == ParseError::InvalidEncoding
    } else {
        match json_parse_of(decode_utf8(bytes)) {
            None => r matches Err(e) && e == ParseError::MalformedDocument,
            Some(doc) => r matches Ok(sf) && sf.raw_json == doc && player_data_matches(
                sf.player_data,
                spec_player_obj(doc),
            ),
        }
    }
}

/// Relies on std's `str::from_utf8`: it succeeds exactly on valid UTF-8
/// and returns the text those bytes encode.
#[verifier::external_body]
fn bytes_to_str(bytes: &[u8]) -> (r: Option<&str>)
    ensures
        r matches Some(s) ==> valid_utf8(bytes@) && s@ == decode_utf8(bytes@),
        r is None ==> !valid_utf8(bytes@),
{
    std::str::from_utf8(bytes).ok()
}

impl SaveFile {
    /// Parse decrypted plaintext bytes into the document and its typed
    /// record.
    pub fn from_bytes(bytes: &[u8]) -> (r: Result<SaveFile, ParseError>)
        ensures
            parse_result_matches(bytes@, r),
    {
        let text = match bytes_to_str(bytes) {
            Some(t) => t,
            None => {
                return Err(ParseError::InvalidEncoding);
            },
        };
        let doc = match parse_json_text(text) {
            Some(d) => d,
            None => {
                return Err(ParseError::MalformedDocument);
            },
        };
        let null_obj = JsonValue::Null;
        let player_obj = match doc.get(&String::from_str("playerData")) {
            Some(p) => p,
            None => &null_obj,
        };
        let player_data = match PlayerData::from_json(player_obj) {
            Ok(p) => p,
            Err(e) => {
                return Err(e);
            },
        };
        Ok(SaveFile { player_data, raw_json: doc })
    }
}

// ---------------------------------------------------------------------------
// Laws
// ---------------------------------------------------------------------------

/// Field-by-field agreement of two records, at the level of views.
pub open spec fn player_view_eq(a: PlayerData, b: PlayerData) -> bool {
    &&& a.version@ == b.version@
    &&& a.permadeath_mode == b.permadeath_mode
    &&& a.completion_percentage.text@ == b.completion_percentage.text@
    &&& a.play_time_seconds.text@ == b.play_time_seconds.text@
    &&& a.health == b.health
    &&& a.max_health == b.max_health
    &&& a.silk == b.silk
    &&& a.max_silk == b.max_silk
    &&& a.silk_regen_max == b.silk_regen_max
    &&& a.geo == b.geo
    &&& a.shell_shards == b.shell_shards
    &&& a.current_area@ == b.current_area@
    &&& a.map_zone == b.map_zone
    &&& a.at_bench == b.at_bench
    &&& a.current_crest_id@ == b.current_crest_id@
    &&& a.respawn_scene@ == b.respawn_scene@
    &&& a.respawn_type == b.respawn_type
    &&& a.respawn_marker_name@ == b.respawn_marker_name@
    &&& a.tools@.len() == b.tools@.len()
    &&& forall|i: int|
        0 <= i < a.tools@.len() ==> #[trigger] a.tools@[i].name@ == b.tools@[i].name@
            && a.tools@[i].data == b.tools@[i].data
}

/// The parsing stage is deterministic: two outcomes for the same
/// plaintext agree, in the document, in every record field, and in the
/// error kind.
pub proof fn lemma_parse_deterministic(
    bytes: Seq<u8>,
    r1: Result<SaveFile, ParseError>,
    r2: Result<SaveFile, ParseError>,
)
    requires
        parse_result_matches(bytes, r1),
        parse_result_matches(bytes, r2),
    ensures
        match (r1, r2) {
            (Ok(a), Ok(b)) => a.raw_json == b.raw_json && player_view_eq(
                a.player_data,
                b.player_data,
            ),
            (Err(e1), Err(e2)) => e1 == e2,
            _ => false,
        },
{
    if valid_utf8(bytes) {
        match json_parse_of(decode_utf8(bytes)) {
            Some(doc) => {
                let a = r1->Ok_0;
                let b = r2->Ok_0;
                let pobj = spec_player_obj(doc);
                match spec_tools_array(pobj) {
                    Some(arr) => {
                        lemma_tools_rel_deterministic(
                            arr,
                            a.player_data.tools@,
                            b.player_data.tools@,
                        );
                    },
                    None => {},
                }
            },
            None => {},
        }
    }
}

/// A document without a `playerData.Tools.savedData` array yields the
/// empty tool collection, and every aggregate count of it is zero.
pub proof fn lemma_missing_tools_all_defaults(pd: PlayerData, v: JsonValue)
    requires
        player_data_matches(pd, v),
        spec_tools_array(v) is None,
    ensures
        pd.tools@.len() == 0,
        spec_count_seen(pd.tools@) == 0,
        spec_count_selected(pd.tools@) == 0,
        spec_count_unlocked(pd.tools@) == 0,
{
}

} // verus!
