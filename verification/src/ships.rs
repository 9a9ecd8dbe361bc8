//! The ship registry: how ship rows are created and merged from AIS name reports and static
//! data reports, and which write each report leads to.
use vstd::prelude::*;

use crate::ship_types::{major_ship_type_of, MajorAisShipType};
use crate::text::{chars_of, decimal, is_blank, push_decimal, string_from_chars, trim, trim_chars};

verus! {

/// A ship row. `maximum_static_draught` holds the bit pattern of the reported draught, a
/// 64-bit float.
#[derive(Debug, Clone, PartialEq, Eq)]
pub struct Ship {
    pub mmsi: u64,
    pub name: String,
    pub call_sign: Option<String>,
    pub destination: Option<String>,
    pub dimension_a: Option<u16>,
    pub dimension_b: Option<u16>,
    pub dimension_c: Option<u16>,
    pub dimension_d: Option<u16>,
    pub dte: Option<bool>,
    pub eta_month: Option<u8>,
    pub eta_day: Option<u8>,
    pub eta_hour: Option<u8>,
    pub eta_minute: Option<u8>,
    pub fix_type: Option<u8>,
    pub imo_number: Option<u32>,
    pub maximum_static_draught: Option<u64>,
    pub ship_type: Option<u8>,
    pub ais_version: Option<u8>,
    pub major_ship_type: Option<MajorAisShipType>,
}

/// The mathematical form of a ship row.
pub struct ShipView {
    pub mmsi: u64,
    pub name: Seq<char>,
    pub call_sign: Option<Seq<char>>,
    pub destination: Option<Seq<char>>,
    pub dimension_a: Option<u16>,
    pub dimension_b: Option<u16>,
    pub dimension_c: Option<u16>,
    pub dimension_d: Option<u16>,
    pub dte: Option<bool>,
    pub eta_month: Option<u8>,
    pub eta_day: Option<u8>,
    pub eta_hour: Option<u8>,
    pub eta_minute: Option<u8>,
    pub fix_type: Option<u8>,
    pub imo_number: Option<u32>,
    pub maximum_static_draught: Option<u64>,
    pub ship_type: Option<u8>,
    pub ais_version: Option<u8>,
    pub major_ship_type: Option<MajorAisShipType>,
}

/// The characters of an optional string.
pub open spec fn opt_chars(s: Option<String>) -> Option<Seq<char>> {
    match s {
        Some(s) => Some(s@),
        None => None,
    }
}

/// `a` where it holds a value, else `b`.
pub open spec fn or_else<T>(a: Option<T>, b: Option<T>) -> Option<T> {
    match a {
        Some(v) => Some(v),
        None => b,
    }
}

impl View for Ship {
    type V = ShipView;

    open spec fn view(&self) -> ShipView {
        ShipView {
            mmsi: self.mmsi,
            name: self.name@,
            call_sign: opt_chars(self.call_sign),
            destination: opt_chars(self.destination),
            dimension_a: self.dimension_a,
            dimension_b: self.dimension_b,
            dimension_c: self.dimension_c,
            dimension_d: self.dimension_d,
            dte: self.dte,
            eta_month: self.eta_month,
            eta_day: self.eta_day,
            eta_hour: self.eta_hour,
            eta_minute: self.eta_minute,
            fix_type: self.fix_type,
            imo_number: self.imo_number,
            maximum_static_draught: self.maximum_static_draught,
            ship_type: self.ship_type,
            ais_version: self.ais_version,
            major_ship_type: self.major_ship_type,
        }
    }
}

fn clone_opt_string(s: &Option<String>) -> (r: Option<String>)
    ensures
        opt_chars(r) == opt_chars(*s),
{
    match s {
        Some(v) => Some(v.clone()),
        None => None,
    }
}

fn opt_string_eq(a: &Option<String>, b: &Option<String>) -> (r: bool)
    ensures
        r == (opt_chars(*a) == opt_chars(*b)),
{
    match (a, b) {
        (Some(x), Some(y)) => *x == *y,
        (None, None) => true,
        _ => false,
    }
}

fn opt_eq_u8(a: Option<u8>, b: Option<u8>) -> (r: bool)
    ensures
        r == (a == b),
{
    match (a, b) {
        (Some(x), Some(y)) => x == y,
        (None, None) => true,
        _ => false,
    }
}

fn opt_eq_u16(a: Option<u16>, b: Option<u16>) -> (r: bool)
    ensures
        r == (a == b),
{
    match (a, b) {
        (Some(x), Some(y)) => x == y,
        (None, None) => true,
        _ => false,
    }
}

fn opt_eq_u32(a: Option<u32>, b: Option<u32>) -> (r: bool)
    ensures
        r == (a == b),
{
    match (a, b) {
        (Some(x), Some(y)) => x == y,
        (None, None) => true,
        _ => false,
    }
}

fn opt_eq_u64(a: Option<u64>, b: Option<u64>) -> (r: bool)
    ensures
        r == (a == b),
{
    match (a, b) {
        (Some(x), Some(y)) => x == y,
        (None, None) => true,
        _ => false,
    }
}

fn opt_eq_bool(a: Option<bool>, b: Option<bool>) -> (r: bool)
    ensures
        r == (a == b),
{
    match (a, b) {
        (Some(x), Some(y)) => x == y,
        (None, None) => true,
        _ => false,
    }
}

fn opt_eq_major(a: Option<MajorAisShipType>, b: Option<MajorAisShipType>) -> (r: bool)
    ensures
        r == (a == b),
{
    match (a, b) {
        (Some(x), Some(y)) => x == y,
        (None, None) => true,
        _ => false,
    }
}

/// A copy of a ship row.
pub fn copy_ship(s: &Ship) -> (r: Ship)
    ensures
        r@ == s@,
{
    Ship {
        mmsi: s.mmsi,
        name: s.name.clone(),
        call_sign: clone_opt_string(&s.call_sign),
        destination: clone_opt_string(&s.destination),
        dimension_a: s.dimension_a,
        dimension_b: s.dimension_b,
        dimension_c: s.dimension_c,
        dimension_d: s.dimension_d,
        dte: s.dte,
        eta_month: s.eta_month,
        eta_day: s.eta_day,
        eta_hour: s.eta_hour,
        eta_minute: s.eta_minute,
        fix_type: s.fix_type,
        imo_number: s.imo_number,
        maximum_static_draught: s.maximum_static_draught,
        ship_type: s.ship_type,
        ais_version: s.ais_version,
        major_ship_type: s.major_ship_type,
    }
}

/// The magnitude bits of a 64-bit float: its bit pattern without the sign bit.
pub open spec fn float_magnitude(bits: u64) -> int {
    bits as int % 0x8000_0000_0000_0000
}

/// Whether a 64-bit float bit pattern is a NaN: all exponent bits set and a non-zero
/// fraction.
pub open spec fn float_is_nan(bits: u64) -> bool {
    float_magnitude(bits) > 0x7ff0_0000_0000_0000
}

/// Whether two 64-bit floats, given by their bit patterns, compare equal: neither is a NaN,
/// and the patterns are the same or both are zeros of either sign.
pub open spec fn floats_equal(a: u64, b: u64) -> bool {
    &&& !float_is_nan(a)
    &&& !float_is_nan(b)
    &&& (a == b || (float_magnitude(a) == 0 && float_magnitude(b) == 0))
}

/// Whether two optional draughts compare equal: both missing, or both present and equal as
/// floats.
pub open spec fn draughts_equal(a: Option<u64>, b: Option<u64>) -> bool {
    match (a, b) {
        (Some(x), Some(y)) => floats_equal(x, y),
        (None, None) => true,
        _ => false,
    }
}

/// Whether two rows compare equal: every field is the same, the draught compared as a float.
pub open spec fn same_ship(left: ShipView, right: ShipView) -> bool {
    &&& ShipView { maximum_static_draught: None, ..left } == ShipView { maximum_static_draught: None, ..right }
    &&& draughts_equal(left.maximum_static_draught, right.maximum_static_draught)
}

fn opt_draught_eq(a: Option<u64>, b: Option<u64>) -> (r: bool)
    ensures
        r == draughts_equal(a, b),
{
    match (a, b) {
        (Some(x), Some(y)) => {
            let mx: u64 = x % 0x8000_0000_0000_0000;
            let my: u64 = y % 0x8000_0000_0000_0000;
            mx <= 0x7ff0_0000_0000_0000 && my <= 0x7ff0_0000_0000_0000 && (x == y || (mx == 0 && my == 0))
        },
        (None, None) => true,
        _ => false,
    }
}

/// Whether two ship rows compare equal, field by field, the draught as a float.
pub fn ships_equal(left: &Ship, right: &Ship) -> (r: bool)
    ensures
        r == same_ship(left@, right@),
{
    left.mmsi == right.mmsi && left.name == right.name && opt_string_eq(&left.call_sign, &right.call_sign)
        && opt_string_eq(&left.destination, &right.destination) && opt_eq_u16(
        left.dimension_a,
        right.dimension_a,
    ) && opt_eq_u16(left.dimension_b, right.dimension_b) && opt_eq_u16(
        left.dimension_c,
        right.dimension_c,
    ) && opt_eq_u16(left.dimension_d, right.dimension_d) && opt_eq_bool(left.dte, right.dte)
        && opt_eq_u8(left.eta_month, right.eta_month) && opt_eq_u8(left.eta_day, right.eta_day)
        && opt_eq_u8(left.eta_hour, right.eta_hour) && opt_eq_u8(left.eta_minute, right.eta_minute)
        && opt_eq_u8(left.fix_type, right.fix_type) && opt_eq_u32(left.imo_number, right.imo_number)
        && opt_draught_eq(left.maximum_static_draught, right.maximum_static_draught) && opt_eq_u8(
        left.ship_type,
        right.ship_type,
    ) && opt_eq_u8(left.ais_version, right.ais_version) && opt_eq_major(
        left.major_ship_type,
        right.major_ship_type,
    )
}

/// A name is blank when nothing but whitespace is left after trimming.
pub open spec fn is_blank_name(name: Seq<char>) -> bool {
    trim(name).len() == 0
}

/// `existing` after a name report: a non-blank incoming name replaces the name, an incoming
/// call sign replaces the call sign, and every other field stays.
pub open spec fn merge_ship_of(existing: ShipView, name: Seq<char>, call_sign: Option<Seq<char>>) -> ShipView {
    ShipView {
        name: if is_blank_name(name) { existing.name } else { name },
        call_sign: or_else(call_sign, existing.call_sign),
        ..existing
    }
}

fn blank_string(s: &String) -> (b: bool)
    ensures
        b == is_blank_name(s@),
{
    let c = chars_of(s.as_str());
    is_blank(c.as_slice())
}

/// Merges a name report into an existing ship row.
pub fn merge_ship(existing: &Ship, incoming_name: String, incoming_call_sign: Option<String>) -> (r: Ship)
    ensures
        r@ == merge_ship_of(existing@, incoming_name@, opt_chars(incoming_call_sign)),
{
    let name = if blank_string(&incoming_name) {
        existing.name.clone()
    } else {
        incoming_name
    };
    let call_sign = match incoming_call_sign {
        Some(c) => Some(c),
        None => clone_opt_string(&existing.call_sign),
    };
    Ship {
        mmsi: existing.mmsi,
        name,
        call_sign,
        destination: clone_opt_string(&existing.destination),
        dimension_a: existing.dimension_a,
        dimension_b: existing.dimension_b,
        dimension_c: existing.dimension_c,
        dimension_d: existing.dimension_d,
        dte: existing.dte,
        eta_month: existing.eta_month,
        eta_day: existing.eta_day,
        eta_hour: existing.eta_hour,
        eta_minute: existing.eta_minute,
        fix_type: existing.fix_type,
        imo_number: existing.imo_number,
        maximum_static_draught: existing.maximum_static_draught,
        ship_type: existing.ship_type,
        ais_version: existing.ais_version,
        major_ship_type: existing.major_ship_type,
    }
}

/// The trimmed text, or nothing where it is blank.
pub open spec fn normalized_text(value: Seq<char>) -> Option<Seq<char>> {
    if trim(value).len() == 0 {
        None
    } else {
        Some(trim(value))
    }
}

/// Trims a reported text field, treating a blank one as absent.
pub fn normalize_optional_string(value: String) -> (r: Option<String>)
    ensures
        opt_chars(r) == normalized_text(value@),
{
    let c = chars_of(value.as_str());
    let t = trim_chars(c.as_slice());
    if t.len() == 0 {
        None
    } else {
        Some(string_from_chars(t.as_slice()))
    }
}

/// A reported ETA month, kept when it is 1 to 12.
pub fn normalize_eta_month(month: u8) -> (r: Option<u8>)
    ensures
        r == (if 1 <= month <= 12 { Some(month) } else { None }),
{
    if 1 <= month && month <= 12 {
        Some(month)
    } else {
        None
    }
}

/// A reported ETA day, kept when it is 1 to 31.
pub fn normalize_eta_day(day: u8) -> (r: Option<u8>)
    ensures
        r == (if 1 <= day <= 31 { Some(day) } else { None }),
{
    if 1 <= day && day <= 31 {
        Some(day)
    } else {
        None
    }
}

/// A reported ETA hour, kept when it is below 24.
pub fn normalize_eta_hour(hour: u8) -> (r: Option<u8>)
    ensures
        r == (if hour < 24 { Some(hour) } else { None }),
{
    if hour < 24 {
        Some(hour)
    } else {
        None
    }
}

/// A reported ETA minute, kept when it is below 60.
pub fn normalize_eta_minute(minute: u8) -> (r: Option<u8>)
    ensures
        r == (if minute < 60 { Some(minute) } else { None }),
{
    if minute < 60 {
        Some(minute)
    } else {
        None
    }
}

/// A reported IMO number, kept when it is not zero.
pub fn normalize_imo_number(imo_number: u32) -> (r: Option<u32>)
    ensures
        r == (if imo_number != 0 { Some(imo_number) } else { None }),
{
    if imo_number != 0 {
        Some(imo_number)
    } else {
        None
    }
}

/// A static data report, after normalisation. `maximum_static_draught` holds the bit pattern
/// of the reported draught.
#[derive(Debug, Clone, PartialEq, Eq)]
pub struct ShipStaticUpdate {
    pub name: String,
    pub call_sign: Option<String>,
    pub destination: Option<String>,
    pub dimension_a: Option<u16>,
    pub dimension_b: Option<u16>,
    pub dimension_c: Option<u16>,
    pub dimension_d: Option<u16>,
    pub dte: Option<bool>,
    pub eta_month: Option<u8>,
    pub eta_day: Option<u8>,
    pub eta_hour: Option<u8>,
    pub eta_minute: Option<u8>,
    pub fix_type: Option<u8>,
    pub imo_number: Option<u32>,
    pub maximum_static_draught: Option<u64>,
    pub ship_type: Option<u8>,
    pub major_ship_type: Option<MajorAisShipType>,
    pub ais_version: Option<u8>,
}

/// The raw fields of an AIS static data report. `maximum_static_draught` holds the bit
/// pattern of the reported draught.
#[derive(Debug, Clone, PartialEq, Eq)]
pub struct StaticReport {
    pub name: String,
    pub call_sign: String,
    pub destination: String,
    pub dimension_a: u16,
    pub dimension_b: u16,
    pub dimension_c: u16,
    pub dimension_d: u16,
    pub dte: bool,
    pub eta_month: u8,
    pub eta_day: u8,
    pub eta_hour: u8,
    pub eta_minute: u8,
    pub fix_type: u8,
    pub imo_number: u32,
    pub maximum_static_draught: u64,
    pub ship_type: u8,
    pub ais_version: u8,
}

/// The normalisation of a static data report: texts trimmed and blank ones dropped, ETA parts
/// out of range and a zero IMO number dropped, the ship type's category derived.
pub open spec fn normalized_update_matches(u: ShipStaticUpdate, r: StaticReport) -> bool {
    &&& u.name@ == r.name@
    &&& opt_chars(u.call_sign) == normalized_text(r.call_sign@)
    &&& opt_chars(u.destination) == normalized_text(r.destination@)
    &&& u.dimension_a == Some(r.dimension_a)
    &&& u.dimension_b == Some(r.dimension_b)
    &&& u.dimension_c == Some(r.dimension_c)
    &&& u.dimension_d == Some(r.dimension_d)
    &&& u.dte == Some(r.dte)
    &&& u.eta_month == (if 1 <= r.eta_month <= 12 { Some(r.eta_month) } else { None })
    &&& u.eta_day == (if 1 <= r.eta_day <= 31 { Some(r.eta_day) } else { None })
    &&& u.eta_hour == (if r.eta_hour < 24 { Some(r.eta_hour) } else { None })
    &&& u.eta_minute == (if r.eta_minute < 60 { Some(r.eta_minute) } else { None })
    &&& u.fix_type == Some(r.fix_type)
    &&& u.imo_number == (if r.imo_number != 0 { Some(r.imo_number) } else { None })
    &&& u.maximum_static_draught == Some(r.maximum_static_draught)
    &&& u.ship_type == Some(r.ship_type)
    &&& u.ais_version == Some(r.ais_version)
    &&& u.major_ship_type == Some(major_ship_type_of(r.ship_type))
}

/// Normalises the raw fields of a static data report.
pub fn normalize_static_update(report: StaticReport) -> (u: ShipStaticUpdate)
    ensures
        normalized_update_matches(u, report),
{
    let ghost r0 = report;
    let StaticReport {
        name,
        call_sign,
        destination,
        dimension_a,
        dimension_b,
        dimension_c,
        dimension_d,
        dte,
        eta_month,
        eta_day,
        eta_hour,
        eta_minute,
        fix_type,
        imo_number,
        maximum_static_draught,
        ship_type,
        ais_version,
    } = report;
    ShipStaticUpdate {
        name,
        call_sign: normalize_optional_string(call_sign),
        destination: normalize_optional_string(destination),
        dimension_a: Some(dimension_a),
        dimension_b: Some(dimension_b),
        dimension_c: Some(dimension_c),
        dimension_d: Some(dimension_d),
        dte: Some(dte),
        eta_month: normalize_eta_month(eta_month),
        eta_day: normalize_eta_day(eta_day),
        eta_hour: normalize_eta_hour(eta_hour),
        eta_minute: normalize_eta_minute(eta_minute),
        fix_type: Some(fix_type),
        imo_number: normalize_imo_number(imo_number),
        maximum_static_draught: Some(maximum_static_draught),
        ship_type: Some(ship_type),
        ais_version: Some(ais_version),
        major_ship_type: Some(MajorAisShipType::from(ship_type)),
    }
}

/// The row that a static data update leaves for ship `mmsi`. Merged into an existing row,
/// every field the update holds wins and every other field stays, with the name and call
/// sign merged as for a name report. A new row takes the update's fields, and the MMSI in
/// decimal as its name where the reported name is blank.
pub open spec fn merge_static_of(existing: Option<ShipView>, mmsi: u64, u: ShipStaticUpdate) -> ShipView {
    match existing {
        Some(e) => {
            let merged = merge_ship_of(e, u.name@, opt_chars(u.call_sign));
            ShipView {
                mmsi: mmsi,
                name: merged.name,
                call_sign: merged.call_sign,
                destination: or_else(opt_chars(u.destination), merged.destination),
                dimension_a: or_else(u.dimension_a, merged.dimension_a),
                dimension_b: or_else(u.dimension_b, merged.dimension_b),
                dimension_c: or_else(u.dimension_c, merged.dimension_c),
                dimension_d: or_else(u.dimension_d, merged.dimension_d),
                dte: or_else(u.dte, merged.dte),
                eta_month: or_else(u.eta_month, merged.eta_month),
                eta_day: or_else(u.eta_day, merged.eta_day),
                eta_hour: or_else(u.eta_hour, merged.eta_hour),
                eta_minute: or_else(u.eta_minute, merged.eta_minute),
                fix_type: or_else(u.fix_type, merged.fix_type),
                imo_number: or_else(u.imo_number, merged.imo_number),
                maximum_static_draught: or_else(u.maximum_static_draught, merged.maximum_static_draught),
                ship_type: or_else(u.ship_type, merged.ship_type),
                ais_version: or_else(u.ais_version, merged.ais_version),
                major_ship_type: or_else(u.major_ship_type, merged.major_ship_type),
            }
        },
        None => ShipView {
            mmsi: mmsi,
            name: if is_blank_name(u.name@) { decimal(mmsi as nat) } else { u.name@ },
            call_sign: opt_chars(u.call_sign),
            destination: opt_chars(u.destination),
            dimension_a: u.dimension_a,
            dimension_b: u.dimension_b,
            dimension_c: u.dimension_c,
            dimension_d: u.dimension_d,
            dte: u.dte,
            eta_month: u.eta_month,
            eta_day: u.eta_day,
            eta_hour: u.eta_hour,
            eta_minute: u.eta_minute,
            fix_type: u.fix_type,
            imo_number: u.imo_number,
            maximum_static_draught: u.maximum_static_draught,
            ship_type: u.ship_type,
            ais_version: u.ais_version,
            major_ship_type: u.major_ship_type,
        },
    }
}

/// The view of an optional row.
pub open spec fn opt_ship(s: Option<&Ship>) -> Option<ShipView> {
    match s {
        Some(s) => Some(s@),
        None => None,
    }
}

fn opt_or<T>(a: Option<T>, b: Option<T>) -> (r: Option<T>)
    ensures
        r == or_else(a, b),
{
    match a {
        Some(v) => Some(v),
        None => b,
    }
}

fn opt_or_string(a: Option<String>, b: Option<String>) -> (r: Option<String>)
    ensures
        opt_chars(r) == or_else(opt_chars(a), opt_chars(b)),
{
    match a {
        Some(v) => Some(v),
        None => b,
    }
}

/// Merges a normalised static data update into the row of ship `mmsi`, or makes a new row.
pub fn merge_ship_static_data(existing: Option<&Ship>, mmsi: u64, update: ShipStaticUpdate) -> (r: Ship)
    ensures
        r@ == merge_static_of(opt_ship(existing), mmsi, update),
{
    let ghost u0 = update;
    let ShipStaticUpdate {
        name,
        call_sign,
        destination,
        dimension_a,
        dimension_b,
        dimension_c,
        dimension_d,
        dte,
        eta_month,
        eta_day,
        eta_hour,
        eta_minute,
        fix_type,
        imo_number,
        maximum_static_draught,
        ship_type,
        major_ship_type,
        ais_version,
    } = update;
    match existing {
        Some(existing) => {
            let merged = merge_ship(existing, name, call_sign);
            let r = Ship {
                mmsi,
                name: merged.name,
                call_sign: merged.call_sign,
                destination: opt_or_string(destination, merged.destination),
                dimension_a: opt_or(dimension_a, merged.dimension_a),
                dimension_b: opt_or(dimension_b, merged.dimension_b),
                dimension_c: opt_or(dimension_c, merged.dimension_c),
                dimension_d: opt_or(dimension_d, merged.dimension_d),
                dte: opt_or(dte, merged.dte),
                eta_month: opt_or(eta_month, merged.eta_month),
                eta_day: opt_or(eta_day, merged.eta_day),
                eta_hour: opt_or(eta_hour, merged.eta_hour),
                eta_minute: opt_or(eta_minute, merged.eta_minute),
                fix_type: opt_or(fix_type, merged.fix_type),
                imo_number: opt_or(imo_number, merged.imo_number),
                maximum_static_draught: opt_or(maximum_static_draught, merged.maximum_static_draught),
                ship_type: opt_or(ship_type, merged.ship_type),
                ais_version: opt_or(ais_version, merged.ais_version),
                major_ship_type: opt_or(major_ship_type, merged.major_ship_type),
            };
            r
        },
        None => {
            let name = if blank_string(&name) {
                let mut digits: Vec<char> = Vec::new();
                push_decimal(&mut digits, mmsi);
                assert(digits@ =~= decimal(mmsi as nat));
                string_from_chars(digits.as_slice())
            } else {
                name
            };
            Ship {
                mmsi,
                name,
                call_sign,
                destination,
                dimension_a,
                dimension_b,
                dimension_c,
                dimension_d,
                dte,
                eta_month,
                eta_day,
                eta_hour,
                eta_minute,
                fix_type,
                imo_number,
                maximum_static_draught,
                ship_type,
                ais_version,
                major_ship_type,
            }
        },
    }
}

/// The write that a report leads to in the ship table.
#[derive(Debug, Clone, PartialEq, Eq)]
pub enum ShipWrite {
    /// Insert a new row.
    Insert(Ship),
    /// Replace the existing row of the same MMSI.
    Update(Ship),
    /// Leave the table as it is.
    Unchanged,
}

/// The write for a new or merged row: an insert without an existing row, an update where the
/// row no longer compares equal, nothing where it does.
pub open spec fn write_matches(w: ShipWrite, existing: Option<ShipView>, next: ShipView) -> bool {
    match existing {
        None => w matches ShipWrite::Insert(s) && s@ == next,
        Some(e) => if same_ship(e, next) {
            w is Unchanged
        } else {
            w matches ShipWrite::Update(s) && s@ == next
        },
    }
}

/// A fresh row holding only an MMSI, a name and perhaps a call sign.
pub open spec fn named_ship_of(mmsi: u64, name: Seq<char>, call_sign: Option<Seq<char>>) -> ShipView {
    ShipView {
        mmsi: mmsi,
        name: name,
        call_sign: call_sign,
        destination: None,
        dimension_a: None,
        dimension_b: None,
        dimension_c: None,
        dimension_d: None,
        dte: None,
        eta_month: None,
        eta_day: None,
        eta_hour: None,
        eta_minute: None,
        fix_type: None,
        imo_number: None,
        maximum_static_draught: None,
        ship_type: None,
        ais_version: None,
        major_ship_type: None,
    }
}

/// The row that a name report leaves.
pub open spec fn add_ship_next(existing: Option<ShipView>, name: Seq<char>, call_sign: Option<Seq<char>>, mmsi: u64) -> ShipView {
    match existing {
        Some(e) => merge_ship_of(e, name, call_sign),
        None => named_ship_of(mmsi, name, call_sign),
    }
}

/// Decides the write for a name report of ship `mmsi`, given the row stored under that MMSI.
pub fn add_ship(existing: Option<&Ship>, name: String, call_sign: Option<String>, mmsi: u64) -> (w: ShipWrite)
    requires
        match existing {
            Some(e) => e.mmsi == mmsi,
            None => true,
        },
    ensures
        write_matches(w, opt_ship(existing), add_ship_next(opt_ship(existing), name@, opt_chars(call_sign), mmsi)),
{
    match existing {
        Some(existing) => {
            let merged = merge_ship(existing, name, call_sign);
            if ships_equal(existing, &merged) {
                ShipWrite::Unchanged
            } else {
                ShipWrite::Update(merged)
            }
        },
        None => ShipWrite::Insert(
            Ship {
                mmsi,
                name,
                call_sign,
                destination: None,
                dimension_a: None,
                dimension_b: None,
                dimension_c: None,
                dimension_d: None,
                dte: None,
                eta_month: None,
                eta_day: None,
                eta_hour: None,
                eta_minute: None,
                fix_type: None,
                imo_number: None,
                maximum_static_draught: None,
                ship_type: None,
                ais_version: None,
                major_ship_type: None,
            },
        ),
    }
}

/// Decides the write for a static data report of ship `mmsi`, given the row stored under
/// that MMSI.
pub fn upsert_ship_static_data(existing: Option<&Ship>, mmsi: u64, report: StaticReport) -> (w: ShipWrite)
    requires
        match existing {
            Some(e) => e.mmsi == mmsi,
            None => true,
        },
    ensures
        exists|u: ShipStaticUpdate|
            normalized_update_matches(u, report) && write_matches(
                w,
                opt_ship(existing),
                merge_static_of(opt_ship(existing), mmsi, u),
            ),
{
    let update = normalize_static_update(report);
    let ghost u = update;
    let next_row = merge_ship_static_data(existing, mmsi, update);
    let w = match existing {
        Some(existing) => if ships_equal(existing, &next_row) {
            ShipWrite::Unchanged
        } else {
            ShipWrite::Update(next_row)
        },
        None => ShipWrite::Insert(next_row),
    };
    assert(normalized_update_matches(u, report));
    w
}

/// The row that the category backfill writes for `ship`, where it writes one: rows with a
/// ship type but no category get the type's category.
pub open spec fn backfilled_of(ship: ShipView) -> Option<ShipView> {
    if ship.major_ship_type is Some {
        None
    } else {
        match ship.ship_type {
            Some(t) => Some(ShipView { major_ship_type: Some(major_ship_type_of(t)), ..ship }),
            None => None,
        }
    }
}

/// The updates of the category backfill over the ship table, in table order.
pub open spec fn backfill_updates_of(ships: Seq<ShipView>) -> Seq<ShipView>
    decreases ships.len(),
{
    if ships.len() == 0 {
        Seq::empty()
    } else {
        let rest = backfill_updates_of(ships.drop_last());
        match backfilled_of(ships.last()) {
            Some(s) => rest.push(s),
            None => rest,
        }
    }
}

/// The views of a sequence of rows.
pub open spec fn ship_views(ships: Seq<Ship>) -> Seq<ShipView> {
    ships.map_values(|s: Ship| s@)
}

/// Decides the row updates that derive the missing categories of the ship table's rows.
pub fn backfill_major_ship_types(ships: &[Ship]) -> (updates: Vec<Ship>)
    ensures
        ship_views(updates@) == backfill_updates_of(ship_views(ships@)),
{
    let mut updates: Vec<Ship> = Vec::new();
    let mut i: usize = 0;
    while i < ships.len()
        invariant
            i <= ships@.len(),
            ship_views(updates@) == backfill_updates_of(ship_views(ships@.take(i as int))),
        decreases ships.len() - i,
    {
        let ghost before = updates@;
        let ship = &ships[i];
        proof {
            assert(ship_views(ships@.take(i + 1)).drop_last() =~= ship_views(ships@.take(i as int)));
            assert(ship_views(ships@.take(i + 1)).last() == ship@);
        }
        if ship.major_ship_type.is_none() {
            match ship.ship_type {
                Some(t) => {
                    let mut next = copy_ship(ship);
                    next.major_ship_type = Some(MajorAisShipType::from(t));
                    updates.push(next);
                    assert(ship_views(updates@) =~= ship_views(before).push(next@));
                },
                None => {},
            }
        }
        i = i + 1;
    }
    assert(ships@.take(i as int) =~= ships@);
    updates
}

/// A draught that is missing or not a NaN, so that the row compares equal to itself.
pub open spec fn draught_not_nan(d: Option<u64>) -> bool {
    match d {
        Some(b) => !float_is_nan(b),
        None => true,
    }
}

/// Law: a name report applied a second time leaves the row as the first application left
/// it, so the second report leads to no write, unless the row's draught is a NaN, which
/// never compares equal.
pub proof fn law_add_ship_idempotent(
    existing: Option<ShipView>,
    name: Seq<char>,
    call_sign: Option<Seq<char>>,
    mmsi: u64,
    w: ShipWrite,
)
    requires
        draught_not_nan(add_ship_next(existing, name, call_sign, mmsi).maximum_static_draught),
    ensures
        add_ship_next(Some(add_ship_next(existing, name, call_sign, mmsi)), name, call_sign, mmsi) == add_ship_next(
            existing,
            name,
            call_sign,
            mmsi,
        ),
        write_matches(
            w,
            Some(add_ship_next(existing, name, call_sign, mmsi)),
            add_ship_next(Some(add_ship_next(existing, name, call_sign, mmsi)), name, call_sign, mmsi),
        ) ==> w is Unchanged,
{
}

/// Law: a static data update applied a second time leaves the row as the first application
/// left it, so the second report leads to no write, unless the row's draught is a NaN, which
/// never compares equal.
pub proof fn law_static_update_idempotent(existing: Option<ShipView>, mmsi: u64, u: ShipStaticUpdate, w: ShipWrite)
    requires
        draught_not_nan(merge_static_of(existing, mmsi, u).maximum_static_draught),
    ensures
        merge_static_of(Some(merge_static_of(existing, mmsi, u)), mmsi, u) == merge_static_of(existing, mmsi, u),
        write_matches(
            w,
            Some(merge_static_of(existing, mmsi, u)),
            merge_static_of(Some(merge_static_of(existing, mmsi, u)), mmsi, u),
        ) ==> w is Unchanged,
{
    let r = merge_static_of(existing, mmsi, u);
    assert(merge_static_of(Some(r), mmsi, u) == r);
    assert(draughts_equal(r.maximum_static_draught, r.maximum_static_draught));
    assert(same_ship(r, r));
}

/// Law: merging a static data update into a row never forgets: every field the row knew is
/// still known afterwards, a non-blank name stays non-blank, and the row keeps its MMSI.
pub proof fn law_static_update_keeps_known_fields(e: ShipView, u: ShipStaticUpdate)
    ensures
        ({
            let r = merge_static_of(Some(e), e.mmsi, u);
            &&& r.mmsi == e.mmsi
            &&& (!is_blank_name(e.name) ==> !is_blank_name(r.name))
            &&& (e.call_sign is Some ==> r.call_sign is Some)
            &&& (e.destination is Some ==> r.destination is Some)
            &&& (e.dimension_a is Some ==> r.dimension_a is Some)
            &&& (e.dimension_b is Some ==> r.dimension_b is Some)
            &&& (e.dimension_c is Some ==> r.dimension_c is Some)
            &&& (e.dimension_d is Some ==> r.dimension_d is Some)
            &&& (e.dte is Some ==> r.dte is Some)
            &&& (e.eta_month is Some ==> r.eta_month is Some)
            &&& (e.eta_day is Some ==> r.eta_day is Some)
            &&& (e.eta_hour is Some ==> r.eta_hour is Some)
            &&& (e.eta_minute is Some ==> r.eta_minute is Some)
            &&& (e.fix_type is Some ==> r.fix_type is Some)
            &&& (e.imo_number is Some ==> r.imo_number is Some)
            &&& (e.maximum_static_draught is Some ==> r.maximum_static_draught is Some)
            &&& (e.ship_type is Some ==> r.ship_type is Some)
            &&& (e.ais_version is Some ==> r.ais_version is Some)
            &&& (e.major_ship_type is Some ==> r.major_ship_type is Some)
        }),
{
}

/// A field after a merge: the reported value where one was reported, else the stored one.
pub open spec fn takes_reported<T>(reported: Option<T>, stored: Option<T>, merged: Option<T>) -> bool {
    match reported {
        Some(v) => merged == Some(v),
        None => merged == stored,
    }
}

/// Law: merging a static data update into a stored row takes every reported field and keeps
/// every unreported one: a reported destination, call sign, dimension, ETA, fix type, IMO
/// number, draught, ship type, category or AIS version replaces the stored one; a non-blank
/// reported name replaces the stored name, a blank one keeps it; the row gets the given MMSI.
pub proof fn law_static_update_takes_reported_fields(e: ShipView, mmsi: u64, u: ShipStaticUpdate)
    ensures
        ({
            let r = merge_static_of(Some(e), mmsi, u);
            &&& r.mmsi == mmsi
            &&& (is_blank_name(u.name@) ==> r.name == e.name)
            &&& (!is_blank_name(u.name@) ==> r.name == u.name@)
            &&& takes_reported(opt_chars(u.call_sign), e.call_sign, r.call_sign)
            &&& takes_reported(opt_chars(u.destination), e.destination, r.destination)
            &&& takes_reported(u.dimension_a, e.dimension_a, r.dimension_a)
            &&& takes_reported(u.dimension_b, e.dimension_b, r.dimension_b)
            &&& takes_reported(u.dimension_c, e.dimension_c, r.dimension_c)
            &&& takes_reported(u.dimension_d, e.dimension_d, r.dimension_d)
            &&& takes_reported(u.dte, e.dte, r.dte)
            &&& takes_reported(u.eta_month, e.eta_month, r.eta_month)
            &&& takes_reported(u.eta_day, e.eta_day, r.eta_day)
            &&& takes_reported(u.eta_hour, e.eta_hour, r.eta_hour)
            &&& takes_reported(u.eta_minute, e.eta_minute, r.eta_minute)
            &&& takes_reported(u.fix_type, e.fix_type, r.fix_type)
            &&& takes_reported(u.imo_number, e.imo_number, r.imo_number)
            &&& takes_reported(u.maximum_static_draught, e.maximum_static_draught, r.maximum_static_draught)
            &&& takes_reported(u.ship_type, e.ship_type, r.ship_type)
            &&& takes_reported(u.ais_version, e.ais_version, r.ais_version)
            &&& takes_reported(u.major_ship_type, e.major_ship_type, r.major_ship_type)
        }),
{
}

/// Law: a static data update for a ship without a row makes a row holding exactly the
/// reported fields and the given MMSI, named after the MMSI where the reported name is blank.
pub proof fn law_static_update_new_row(mmsi: u64, u: ShipStaticUpdate)
    ensures
        ({
            let r = merge_static_of(None, mmsi, u);
            &&& r.mmsi == mmsi
            &&& r.name == (if is_blank_name(u.name@) { decimal(mmsi as nat) } else { u.name@ })
            &&& r.call_sign == opt_chars(u.call_sign) && r.destination == opt_chars(u.destination)
            &&& r.dimension_a == u.dimension_a && r.dimension_b == u.dimension_b
            &&& r.dimension_c == u.dimension_c && r.dimension_d == u.dimension_d
            &&& r.dte == u.dte && r.eta_month == u.eta_month && r.eta_day == u.eta_day
            &&& r.eta_hour == u.eta_hour && r.eta_minute == u.eta_minute && r.fix_type == u.fix_type
            &&& r.imo_number == u.imo_number && r.maximum_static_draught == u.maximum_static_draught
            &&& r.ship_type == u.ship_type && r.ais_version == u.ais_version
            &&& r.major_ship_type == u.major_ship_type
        }),
{
}

/// Law: a name report takes a non-blank reported name and a reported call sign, and keeps the
/// stored ones otherwise.
pub proof fn law_name_report_takes_reported_fields(e: ShipView, name: Seq<char>, call_sign: Option<Seq<char>>)
    ensures
        ({
            let r = merge_ship_of(e, name, call_sign);
            &&& (is_blank_name(name) ==> r.name == e.name)
            &&& (!is_blank_name(name) ==> r.name == name)
            &&& takes_reported(call_sign, e.call_sign, r.call_sign)
        }),
{
}

/// Law: a name report keeps the row's MMSI and every static field, and never blanks a name.
pub proof fn law_name_report_keeps_static_fields(e: ShipView, name: Seq<char>, call_sign: Option<Seq<char>>)
    ensures
        ({
            let r = merge_ship_of(e, name, call_sign);
            &&& r.mmsi == e.mmsi
            &&& (!is_blank_name(e.name) ==> !is_blank_name(r.name))
            &&& (e.call_sign is Some ==> r.call_sign is Some)
            &&& r.destination == e.destination
            &&& r.dimension_a == e.dimension_a && r.dimension_b == e.dimension_b
            &&& r.dimension_c == e.dimension_c && r.dimension_d == e.dimension_d
            &&& r.ship_type == e.ship_type && r.major_ship_type == e.major_ship_type
            &&& r.imo_number == e.imo_number && r.maximum_static_draught == e.maximum_static_draught
        }),
{
}

/// Some row of the ship table is named `name`.
pub open spec fn name_taken(existing_names: Seq<String>, name: Seq<char>) -> bool {
    exists|i: int| 0 <= i < existing_names.len() && #[trigger] existing_names[i]@ == name
}

/// `name` as a one-item list where no row holds it yet, else nothing.
pub open spec fn if_missing(existing_names: Seq<String>, name: Seq<char>) -> Seq<Seq<char>> {
    if name_taken(existing_names, name) { Seq::empty() } else { seq![name] }
}

/// The ships the sample client adds at start, in order: each of `Wayfarer`, `Northwind` and
/// `Evening Tide` that no row is named after yet.
pub open spec fn ships_to_add_of(existing_names: Seq<String>) -> Seq<Seq<char>> {
    if_missing(existing_names, "Wayfarer"@) + if_missing(existing_names, "Northwind"@) + if_missing(
        existing_names,
        "Evening Tide"@,
    )
}

fn name_present(existing_names: &[String], name: &str) -> (b: bool)
    ensures
        b == name_taken(existing_names@, name@),
{
    let target = chars_of(name);
    let mut i: usize = 0;
    while i < existing_names.len()
        invariant
            i <= existing_names@.len(),
            target@ == name@,
            forall|k: int| 0 <= k < i ==> existing_names@[k]@ != name@,
        decreases existing_names.len() - i,
    {
        let c = chars_of(existing_names[i].as_str());
        if crate::text::eq_chars(c.as_slice(), target.as_slice()) {
            return true;
        }
        i = i + 1;
    }
    false
}

/// Decides which of the sample client's ships to add, given the names already registered.
pub fn ships_to_add(existing_names: &[String]) -> (r: Vec<&'static str>)
    ensures
        r@.map_values(|s: &'static str| s@) == ships_to_add_of(existing_names@),
{
    let mut r: Vec<&'static str> = Vec::new();
    if !name_present(existing_names, "Wayfarer") {
        r.push("Wayfarer");
    }
    let ghost first = r@.map_values(|s: &'static str| s@);
    assert(first =~= if_missing(existing_names@, "Wayfarer"@));
    if !name_present(existing_names, "Northwind") {
        r.push("Northwind");
    }
    let ghost second = r@.map_values(|s: &'static str| s@);
    assert(second =~= if_missing(existing_names@, "Wayfarer"@) + if_missing(existing_names@, "Northwind"@));
    if !name_present(existing_names, "Evening Tide") {
        r.push("Evening Tide");
    }
    assert(r@.map_values(|s: &'static str| s@) =~= ships_to_add_of(existing_names@));
    r
}

/// Runs when the registry is first published; it needs no setup.
pub fn init() {
}

/// Runs when a client connects; the registry keeps no record of connections.
pub fn identity_connected() {
}

/// Runs when a client disconnects; the registry keeps no record of connections.
pub fn identity_disconnected() {
}

} // verus!
