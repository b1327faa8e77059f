//! `.agentrec/config.toml`: the validated loader (backed by the `toml`
//! crate) and the line scanner for single `key = value` reads.
//!
//! Two failure modes, deliberately not conflated: a file that is not TOML
//! is an `Err` carrying the parser's own message (which names the line and
//! column); a value of the wrong shape falls back to that key's default —
//! except `mcp_destructive`, whose invalid value is an `Err` naming the three
//! valid values.

use vstd::prelude::*;
use toml::Value;
use vstd::string::StringExecFns;
use crate::fmt::before_char;
use crate::doc::{Doc, DocV};
use crate::text::{
    chars_of, lines, parse_i64, parse_i64_spec, parse_u64, parse_u64_spec, push_str, slice_chars, split_lines, starts_with,
    has_prefix, string_of, trim, trim_chars, trim_start, trim_start_chars,
};

verus! {

/// The default `ttl_days`.
pub const DEFAULT_TTL_DAYS: u64 = 90;

/// The default snapshot-store budget: 2 GiB.
pub const MAX_STORE_BYTES: u64 = 2_147_483_648;

/// The default number of memory facts injected per hook call.
pub const HOOK_MAX_FACTS_DEFAULT: usize = 5;

/// Agent-driven-undo gating mode. Default `Off`.
#[derive(Debug, Clone, Copy, PartialEq, Eq, Structural)]
pub enum McpDestructive {
    Off,
    Confirm,
    Auto,
}

#[derive(Debug, Clone, PartialEq)]
pub struct Config {
    pub ttl_days: u64,
    pub store_budget_bytes: u64,
    pub noise_globs: Vec<String>,
    pub memory_enabled: bool,
    pub memory_inject_max: usize,
    pub mcp_destructive: McpDestructive,
    /// Whether the `record` daemon appends `stale` attest events.
    pub attest_stale: bool,
    /// Override for the coverage map's location; `None` is the default.
    pub attest_coverage_path: Option<String>,
}

impl Config {
    pub open spec fn is_default(&self) -> bool {
        &&& self.ttl_days == DEFAULT_TTL_DAYS
        &&& self.store_budget_bytes == MAX_STORE_BYTES
        &&& self.noise_globs@.len() == 0
        &&& self.memory_enabled
        &&& self.memory_inject_max == HOOK_MAX_FACTS_DEFAULT
        &&& self.mcp_destructive == McpDestructive::Off
        &&& self.attest_stale
        &&& self.attest_coverage_path is None
    }
}

impl Default for Config {
    fn default() -> (c: Self)
        ensures
            c.is_default(),
    {
        Config {
            ttl_days: DEFAULT_TTL_DAYS,
            store_budget_bytes: MAX_STORE_BYTES,
            noise_globs: Vec::new(),
            memory_enabled: true,
            memory_inject_max: HOOK_MAX_FACTS_DEFAULT,
            mcp_destructive: McpDestructive::Off,
            attest_stale: true,
            attest_coverage_path: None,
        }
    }
}

/// A human-readable load failure: the TOML parser's own message, or the
/// named-values refusal of an invalid `mcp_destructive`.
#[derive(Debug)]
pub struct ConfigError(pub String);

impl ConfigError {
    /// The message.
    pub fn to_string(&self) -> (s: String)
        ensures
            s@ == self.0@,
    {
        self.0.clone()
    }
}

// ---- the TOML document, as the loader reads it ---------------------------------------

/// A scalar: the whole of a top-level value, an element of an array, or a
/// value of a nested table (anything deeper is `Other`).
#[derive(Debug, Clone)]
pub enum TomlItem {
    Str(String),
    Int(i64),
    Bool(bool),
    /// A float, a date-time, or a nested array or table.
    Other,
}

/// A top-level value.
#[derive(Debug, Clone)]
pub enum TomlValue {
    Item(TomlItem),
    Array(Vec<TomlItem>),
    Table(Vec<(String, TomlItem)>),
}

pub enum TomlItemV {
    Str(Seq<char>),
    Int(i64),
    Bool(bool),
    Other,
}

pub enum TomlValueV {
    Item(TomlItemV),
    Array(Seq<TomlItemV>),
    Table(Seq<(Seq<char>, TomlItemV)>),
}

impl View for TomlItem {
    type V = TomlItemV;

    open spec fn view(&self) -> TomlItemV {
        match self {
            TomlItem::Str(s) => TomlItemV::Str(s@),
            TomlItem::Int(n) => TomlItemV::Int(*n),
            TomlItem::Bool(b) => TomlItemV::Bool(*b),
            TomlItem::Other => TomlItemV::Other,
        }
    }
}

impl View for TomlValue {
    type V = TomlValueV;

    open spec fn view(&self) -> TomlValueV {
        match self {
            TomlValue::Item(i) => TomlValueV::Item(i@),
            TomlValue::Array(a) => TomlValueV::Array(a@.map_values(|x: TomlItem| x@)),
            TomlValue::Table(t) => TomlValueV::Table(
                t@.map_values(|p: (String, TomlItem)| (p.0@, p.1@)),
            ),
        }
    }
}

pub open spec fn entries_view(es: Seq<(String, TomlValue)>) -> Seq<(Seq<char>, TomlValueV)> {
    es.map_values(|p: (String, TomlValue)| (p.0@, p.1@))
}

/// `toml::Value`, carried opaquely.
#[verifier::external_type_specification]
#[verifier::external_body]
pub struct ExTomlValue(Value);

/// What the `toml` crate reads `text` as: the top-level table's entries as
/// documents (in its key order), or its error message.
pub uninterp spec fn toml_parse(text: Seq<char>) -> Result<Seq<(Seq<char>, DocV)>, Seq<char>>;

/// The conversion step of [`parse_toml_doc`]: a `toml::Value` taken apart
/// variant for variant (an integer as its `Display` rendering, a float as
/// its `Debug` rendering, a date-time as its `Display` rendering). Nothing
/// is claimed of it on its own; what [`parse_toml_doc`] returns is claimed
/// there.
#[verifier::external_body]
fn doc_of_toml(v: Value) -> (d: Doc) {
    match v {
        Value::String(s) => Doc::Str(s),
        Value::Integer(n) => Doc::Number(n.to_string()),
        Value::Float(f) => Doc::Number(format!("{f:?}")),
        Value::Boolean(b) => Doc::Bool(b),
        Value::Datetime(t) => Doc::Datetime(t.to_string()),
        Value::Array(a) => Doc::Array(a.into_iter().map(doc_of_toml).collect()),
        Value::Table(t) => Doc::Object(t.into_iter().map(|(k, v)| (k, doc_of_toml(v))).collect()),
    }
}

/// `text.parse::<toml::Table>()`: the table's entries converted to
/// documents, or the parser's error message. Claimed: the result is the
/// name [`toml_parse`] applied to `text`.
#[verifier::external_body]
pub(crate) fn parse_toml_doc(text: &str) -> (r: Result<Vec<(String, Doc)>, String>)
    ensures
        match r {
            Ok(es) => toml_parse(text@) == Ok::<_, Seq<char>>(crate::doc::entries_view(es@)),
            Err(m) => toml_parse(text@) == Err::<Seq<(Seq<char>, DocV)>, _>(m@),
        },
{
    match text.parse::<toml::Table>() {
        Ok(t) => Ok(t.into_iter().map(|(k, v)| (k, doc_of_toml(v))).collect()),
        Err(e) => Err(e.to_string()),
    }
}

/// A scalar as the configuration readers see it: a string, an integer (a
/// number whose text reads as an `i64`), a boolean, or anything else.
pub open spec fn toml_item_of(d: DocV) -> TomlItemV {
    match d {
        DocV::Str(s) => TomlItemV::Str(s),
        DocV::Number(n) => match parse_i64_spec(n) {
            Some(i) => TomlItemV::Int(i),
            None => TomlItemV::Other,
        },
        DocV::Bool(b) => TomlItemV::Bool(b),
        _ => TomlItemV::Other,
    }
}

/// A top-level value as the configuration readers see it: arrays and
/// tables one level deep.
pub open spec fn toml_value_of(d: DocV) -> TomlValueV {
    match d {
        DocV::Array(a) => TomlValueV::Array(a.map_values(|x: DocV| toml_item_of(x))),
        DocV::Object(es) => TomlValueV::Table(es.map_values(|p: (Seq<char>, DocV)| (p.0, toml_item_of(p.1)))),
        _ => TomlValueV::Item(toml_item_of(d)),
    }
}

/// The parsed table as the configuration readers see it, or the parser's
/// error message.
pub open spec fn toml_entries(text: Seq<char>) -> Result<Seq<(Seq<char>, TomlValueV)>, Seq<char>> {
    match toml_parse(text) {
        Ok(ds) => Ok(ds.map_values(|p: (Seq<char>, DocV)| (p.0, toml_value_of(p.1)))),
        Err(m) => Err(m),
    }
}

fn item_of(d: &Doc) -> (i: TomlItem)
    ensures
        i@ == toml_item_of(d@),
{
    match d {
        Doc::Str(s) => TomlItem::Str(s.clone()),
        Doc::Number(n) => match parse_i64(&chars_of(n.as_str())) {
            Some(i) => TomlItem::Int(i),
            None => TomlItem::Other,
        },
        Doc::Bool(b) => TomlItem::Bool(*b),
        _ => TomlItem::Other,
    }
}

fn value_of(d: &Doc) -> (v: TomlValue)
    ensures
        v@ == toml_value_of(d@),
{
    match d {
        Doc::Array(a) => {
            proof {
                crate::doc::lemma_array_view(*a);
            }
            let ghost av = crate::doc::items_view(a@);
            let mut out: Vec<TomlItem> = Vec::new();
            let mut i: usize = 0;
            while i < a.len()
                invariant
                    i <= a.len(),
                    av == crate::doc::items_view(a@),
                    out@.map_values(|x: TomlItem| x@) == av.take(i as int).map_values(|x: DocV| toml_item_of(x)),
                decreases a.len() - i,
            {
                let it = item_of(&a[i]);
                assert(av[i as int] == a@[i as int]@);
                let ghost before = out@;
                out.push(it);
                assert(out@.map_values(|x: TomlItem| x@) == before.map_values(|x: TomlItem| x@).push(it@));
                assert(av.take(i + 1).map_values(|x: DocV| toml_item_of(x)) == av.take(i as int).map_values(
                    |x: DocV| toml_item_of(x),
                ).push(toml_item_of(av[i as int])));
                i = i + 1;
            }
            assert(av.take(a.len() as int) == av);
            TomlValue::Array(out)
        },
        Doc::Object(es) => {
            proof {
                crate::doc::lemma_object_view(*es);
            }
            let ghost ev = crate::doc::entries_view(es@);
            let mut out: Vec<(String, TomlItem)> = Vec::new();
            let mut i: usize = 0;
            while i < es.len()
                invariant
                    i <= es.len(),
                    ev == crate::doc::entries_view(es@),
                    out@.map_values(|p: (String, TomlItem)| (p.0@, p.1@)) == ev.take(i as int).map_values(
                        |p: (Seq<char>, DocV)| (p.0, toml_item_of(p.1)),
                    ),
                decreases es.len() - i,
            {
                let it = item_of(&es[i].1);
                let k = es[i].0.clone();
                assert(ev[i as int] == (es@[i as int].0@, es@[i as int].1@));
                let ghost before = out@;
                out.push((k, it));
                assert(out@.map_values(|p: (String, TomlItem)| (p.0@, p.1@)) == before.map_values(
                    |p: (String, TomlItem)| (p.0@, p.1@),
                ).push((k@, it@)));
                assert(ev.take(i + 1).map_values(|p: (Seq<char>, DocV)| (p.0, toml_item_of(p.1))) == ev.take(
                    i as int,
                ).map_values(|p: (Seq<char>, DocV)| (p.0, toml_item_of(p.1))).push(
                    (ev[i as int].0, toml_item_of(ev[i as int].1)),
                ));
                i = i + 1;
            }
            assert(ev.take(es.len() as int) == ev);
            TomlValue::Table(out)
        },
        _ => TomlValue::Item(item_of(d)),
    }
}

/// The parsed table as the configuration readers see it: each top-level
/// value one level deep, or the parser's error message.
pub fn parse_toml(text: &str) -> (r: Result<Vec<(String, TomlValue)>, String>)
    ensures
        match r {
            Ok(es) => toml_entries(text@) == Ok::<_, Seq<char>>(entries_view(es@)),
            Err(m) => toml_entries(text@) == Err::<Seq<(Seq<char>, TomlValueV)>, _>(m@),
        },
{
    match parse_toml_doc(text) {
        Err(m) => Err(m),
        Ok(ds) => {
            let ghost dv = crate::doc::entries_view(ds@);
            let mut out: Vec<(String, TomlValue)> = Vec::new();
            let mut i: usize = 0;
            while i < ds.len()
                invariant
                    i <= ds.len(),
                    dv == crate::doc::entries_view(ds@),
                    entries_view(out@) == dv.take(i as int).map_values(
                        |p: (Seq<char>, DocV)| (p.0, toml_value_of(p.1)),
                    ),
                decreases ds.len() - i,
            {
                let v = value_of(&ds[i].1);
                let k = ds[i].0.clone();
                assert(dv[i as int] == (ds@[i as int].0@, ds@[i as int].1@));
                let ghost before = out@;
                out.push((k, v));
                assert(entries_view(out@) == entries_view(before).push((k@, v@)));
                assert(dv.take(i + 1).map_values(|p: (Seq<char>, DocV)| (p.0, toml_value_of(p.1))) == dv.take(
                    i as int,
                ).map_values(|p: (Seq<char>, DocV)| (p.0, toml_value_of(p.1))).push(
                    (dv[i as int].0, toml_value_of(dv[i as int].1)),
                ));
                i = i + 1;
            }
            assert(dv.take(ds.len() as int) == dv);
            Ok(out)
        },
    }
}

/// The value of the first entry named `k`.
pub open spec fn lookup(es: Seq<(Seq<char>, TomlValueV)>, k: Seq<char>) -> Option<TomlValueV>
    decreases es.len(),
{
    if es.len() == 0 {
        None
    } else if es[0].0 == k {
        Some(es[0].1)
    } else {
        lookup(es.drop_first(), k)
    }
}

/// The index of the first entry named `key`.
pub fn find_entry(es: &Vec<(String, TomlValue)>, key: &str) -> (r: Option<usize>)
    ensures
        match r {
            Some(i) => i < es@.len() && lookup(entries_view(es@), key@) == Some(es@[i as int].1@),
            None => lookup(entries_view(es@), key@) is None,
        },
{
    let k = String::from_str(key);
    let mut i: usize = 0;
    assert(entries_view(es@).skip(0) == entries_view(es@));
    while i < es.len()
        invariant
            i <= es.len(),
            k@ == key@,
            lookup(entries_view(es@), key@) == lookup(entries_view(es@).skip(i as int), key@),
        decreases es.len() - i,
    {
        let ghost rest = entries_view(es@).skip(i as int);
        assert(rest[0] == (es@[i as int].0@, es@[i as int].1@));
        if es[i].0 == k {
            return Some(i);
        }
        assert(rest.drop_first() == entries_view(es@).skip(i + 1));
        i = i + 1;
    }
    None
}

/// The string elements of an array, in order; other elements dropped.
pub open spec fn string_items(items: Seq<TomlItemV>) -> Seq<Seq<char>>
    decreases items.len(),
{
    if items.len() == 0 {
        seq![]
    } else {
        let rest = string_items(items.drop_last());
        match items.last() {
            TomlItemV::Str(s) => rest.push(s),
            _ => rest,
        }
    }
}

pub open spec fn ttl_days_of(es: Seq<(Seq<char>, TomlValueV)>) -> u64 {
    match lookup(es, "ttl_days"@) {
        Some(TomlValueV::Item(TomlItemV::Int(n))) => if n >= 0 {
            n as u64
        } else {
            DEFAULT_TTL_DAYS
        },
        _ => DEFAULT_TTL_DAYS,
    }
}

/// A zero or negative budget is refused (it would make every snapshot an
/// eviction candidate): the default stays.
pub open spec fn store_budget_of(es: Seq<(Seq<char>, TomlValueV)>) -> u64 {
    match lookup(es, "store_budget_bytes"@) {
        Some(TomlValueV::Item(TomlItemV::Int(n))) => if n > 0 {
            n as u64
        } else {
            MAX_STORE_BYTES
        },
        _ => MAX_STORE_BYTES,
    }
}

pub open spec fn noise_globs_of(es: Seq<(Seq<char>, TomlValueV)>) -> Seq<Seq<char>> {
    match lookup(es, "noise_globs"@) {
        Some(TomlValueV::Array(items)) => string_items(items),
        _ => seq![],
    }
}

pub open spec fn bool_or(es: Seq<(Seq<char>, TomlValueV)>, k: Seq<char>, dflt: bool) -> bool {
    match lookup(es, k) {
        Some(TomlValueV::Item(TomlItemV::Bool(b))) => b,
        _ => dflt,
    }
}

pub open spec fn inject_max_of(es: Seq<(Seq<char>, TomlValueV)>) -> usize {
    match lookup(es, "memory_inject_max"@) {
        Some(TomlValueV::Item(TomlItemV::Int(n))) => if n >= 0 {
            n as usize
        } else {
            HOOK_MAX_FACTS_DEFAULT
        },
        _ => HOOK_MAX_FACTS_DEFAULT,
    }
}

pub open spec fn coverage_path_of(es: Seq<(Seq<char>, TomlValueV)>) -> Option<Seq<char>> {
    match lookup(es, "attest_coverage_path"@) {
        Some(TomlValueV::Item(TomlItemV::Str(s))) => Some(s),
        _ => None,
    }
}

/// The text of the `mcp_destructive` value: the string, or empty for a value
/// of another type.
pub open spec fn mcp_text(v: TomlValueV) -> Seq<char> {
    match v {
        TomlValueV::Item(TomlItemV::Str(s)) => s,
        _ => seq![],
    }
}

/// The mode a present `mcp_destructive` names, if it names one.
pub open spec fn mcp_mode(s: Seq<char>) -> Option<McpDestructive> {
    if s == "off"@ {
        Some(McpDestructive::Off)
    } else if s == "confirm"@ {
        Some(McpDestructive::Confirm)
    } else if s == "auto"@ {
        Some(McpDestructive::Auto)
    } else {
        None
    }
}

/// `format!("{:?}", s)` for a `&str`: the string quoted and escaped.
pub uninterp spec fn str_debug(s: Seq<char>) -> Seq<char>;

/// `<str as Debug>::fmt`, through `format!`. Claimed: the result is the name
/// [`str_debug`] of `s`.
#[verifier::external_body]
pub(crate) fn debug_quote(s: &str) -> (r: String)
    ensures
        r@ == str_debug(s@),
{
    format!("{s:?}")
}

/// The named-values refusal of an invalid `mcp_destructive`.
pub open spec fn mcp_error(s: Seq<char>) -> Seq<char> {
    "invalid mcp_destructive value "@ + str_debug(s)
        + ": must be one of \"off\", \"confirm\", \"auto\""@
}

/// Every key, read from the parsed table: each wrong-shaped value falls back
/// to its default; only an `mcp_destructive` that names none of its three
/// values is an error.
pub open spec fn config_matches(c: Config, es: Seq<(Seq<char>, TomlValueV)>) -> bool {
    &&& c.ttl_days == ttl_days_of(es)
    &&& c.store_budget_bytes == store_budget_of(es)
    &&& c.noise_globs@.map_values(|s: String| s@) == noise_globs_of(es)
    &&& c.memory_enabled == bool_or(es, "memory_enabled"@, true)
    &&& c.memory_inject_max == inject_max_of(es)
    &&& c.mcp_destructive == (match lookup(es, "mcp_destructive"@) {
        Some(v) => mcp_mode(mcp_text(v)).unwrap(),
        None => McpDestructive::Off,
    })
    &&& c.attest_stale == bool_or(es, "attest_stale"@, true)
    &&& (match c.attest_coverage_path {
        Some(p) => coverage_path_of(es) == Some(p@),
        None => coverage_path_of(es) is None,
    })
}

/// Each configuration value is read from its own key: a value of the right
/// shape is taken (a non-negative `ttl_days`, a positive
/// `store_budget_bytes`, a non-negative `memory_inject_max` that fits,
/// booleans, the coverage path string, the `mcp_destructive` mode), and
/// anything else leaves that key's default.
pub proof fn law_config_reads_each_key(c: Config, es: Seq<(Seq<char>, TomlValueV)>)
    requires
        config_matches(c, es),
    ensures
        c.ttl_days == match lookup(es, "ttl_days"@) {
            Some(TomlValueV::Item(TomlItemV::Int(n))) => if n >= 0 {
                n as u64
            } else {
                90
            },
            _ => 90,
        },
        c.store_budget_bytes == match lookup(es, "store_budget_bytes"@) {
            Some(TomlValueV::Item(TomlItemV::Int(n))) => if n > 0 {
                n as u64
            } else {
                2_147_483_648
            },
            _ => 2_147_483_648,
        },
        forall|n: i64|
            lookup(es, "memory_inject_max"@) == Some(TomlValueV::Item(TomlItemV::Int(n))) && 0 <= n <= usize::MAX
                ==> c.memory_inject_max == n,
        !(lookup(es, "memory_inject_max"@) matches Some(TomlValueV::Item(TomlItemV::Int(n))) && n >= 0)
            ==> c.memory_inject_max == 5,
        c.memory_enabled == match lookup(es, "memory_enabled"@) {
            Some(TomlValueV::Item(TomlItemV::Bool(b))) => b,
            _ => true,
        },
        c.attest_stale == match lookup(es, "attest_stale"@) {
            Some(TomlValueV::Item(TomlItemV::Bool(b))) => b,
            _ => true,
        },
        lookup(es, "attest_coverage_path"@) matches Some(TomlValueV::Item(TomlItemV::Str(p))) ==> (
        c.attest_coverage_path matches Some(q) && q@ == p),
        !(lookup(es, "attest_coverage_path"@) matches Some(TomlValueV::Item(TomlItemV::Str(p))))
            ==> c.attest_coverage_path is None,
        lookup(es, "mcp_destructive"@) is None ==> c.mcp_destructive == McpDestructive::Off,
        lookup(es, "mcp_destructive"@) == Some(TomlValueV::Item(TomlItemV::Str("confirm"@))) ==> c.mcp_destructive
            == McpDestructive::Confirm,
        lookup(es, "mcp_destructive"@) == Some(TomlValueV::Item(TomlItemV::Str("auto"@))) ==> c.mcp_destructive
            == McpDestructive::Auto,
        lookup(es, "mcp_destructive"@) == Some(TomlValueV::Item(TomlItemV::Str("off"@))) ==> c.mcp_destructive
            == McpDestructive::Off,
        !(lookup(es, "noise_globs"@) matches Some(TomlValueV::Array(_))) ==> c.noise_globs@.len() == 0,
{
    reveal_strlit("off");
    reveal_strlit("confirm");
    reveal_strlit("auto");
    assert("confirm"@.len() == 7 && "off"@.len() == 3 && "auto"@.len() == 4);
    assert("confirm"@ != "off"@ && "auto"@ != "off"@ && "auto"@ != "confirm"@);
    if !(lookup(es, "noise_globs"@) matches Some(TomlValueV::Array(_))) {
        assert(c.noise_globs@.map_values(|s: String| s@).len() == 0);
    }
}

/// Whether the table is refused: a present `mcp_destructive` naming none of
/// `off`, `confirm`, `auto`.
pub open spec fn mcp_refused(es: Seq<(Seq<char>, TomlValueV)>) -> bool {
    match lookup(es, "mcp_destructive"@) {
        Some(v) => mcp_mode(mcp_text(v)) is None,
        None => false,
    }
}

fn int_entry(es: &Vec<(String, TomlValue)>, key: &str) -> (r: Option<i64>)
    ensures
        r == (match lookup(entries_view(es@), key@) {
            Some(TomlValueV::Item(TomlItemV::Int(n))) => Some(n),
            _ => None,
        }),
{
    match find_entry(es, key) {
        Some(i) => match &es[i].1 {
            TomlValue::Item(TomlItem::Int(n)) => Some(*n),
            _ => None,
        },
        None => None,
    }
}

fn bool_entry(es: &Vec<(String, TomlValue)>, key: &str, dflt: bool) -> (r: bool)
    ensures
        r == bool_or(entries_view(es@), key@, dflt),
{
    match find_entry(es, key) {
        Some(i) => match &es[i].1 {
            TomlValue::Item(TomlItem::Bool(b)) => *b,
            _ => dflt,
        },
        None => dflt,
    }
}

fn strings_of_items(items: &Vec<TomlItem>) -> (out: Vec<String>)
    ensures
        out@.map_values(|s: String| s@) == string_items(items@.map_values(|x: TomlItem| x@)),
{
    let mut out: Vec<String> = Vec::new();
    let mut i: usize = 0;
    while i < items.len()
        invariant
            i <= items.len(),
            out@.map_values(|s: String| s@) == string_items(
                items@.take(i as int).map_values(|x: TomlItem| x@),
            ),
        decreases items.len() - i,
    {
        let ghost before = items@.take(i as int).map_values(|x: TomlItem| x@);
        assert(items@.take(i + 1).map_values(|x: TomlItem| x@).drop_last() == before);
        match &items[i] {
            TomlItem::Str(s) => {
                out.push(s.clone());
                assert(out@.map_values(|s: String| s@) == string_items(before).push(s@));
            },
            _ => {},
        }
        i = i + 1;
    }
    assert(items@.take(items.len() as int) == items@);
    out
}

fn str_is(s: &String, lit: &str) -> (r: bool)
    ensures
        r == (s@ == lit@),
{
    *s == String::from_str(lit)
}

fn ttl_of(es: &Vec<(String, TomlValue)>) -> (r: u64)
    ensures
        r == ttl_days_of(entries_view(es@)),
{
    match int_entry(es, "ttl_days") {
        Some(n) => if n >= 0 {
            n as u64
        } else {
            DEFAULT_TTL_DAYS
        },
        None => DEFAULT_TTL_DAYS,
    }
}

fn budget_of(es: &Vec<(String, TomlValue)>) -> (r: u64)
    ensures
        r == store_budget_of(entries_view(es@)),
{
    match int_entry(es, "store_budget_bytes") {
        Some(n) => if n > 0 {
            n as u64
        } else {
            MAX_STORE_BYTES
        },
        None => MAX_STORE_BYTES,
    }
}

fn inject_max(es: &Vec<(String, TomlValue)>) -> (r: usize)
    ensures
        r == inject_max_of(entries_view(es@)),
{
    match int_entry(es, "memory_inject_max") {
        Some(n) => if n >= 0 {
            #[verifier::truncate]
            (n as usize)
        } else {
            HOOK_MAX_FACTS_DEFAULT
        },
        None => HOOK_MAX_FACTS_DEFAULT,
    }
}

fn noise_globs(es: &Vec<(String, TomlValue)>) -> (r: Vec<String>)
    ensures
        r@.map_values(|s: String| s@) == noise_globs_of(entries_view(es@)),
{
    match find_entry(es, "noise_globs") {
        Some(i) => match &es[i].1 {
            TomlValue::Array(items) => strings_of_items(items),
            _ => Vec::new(),
        },
        None => Vec::new(),
    }
}

fn coverage_path(es: &Vec<(String, TomlValue)>) -> (r: Option<String>)
    ensures
        match r {
            Some(p) => coverage_path_of(entries_view(es@)) == Some(p@),
            None => coverage_path_of(entries_view(es@)) is None,
        },
{
    match find_entry(es, "attest_coverage_path") {
        Some(i) => match &es[i].1 {
            TomlValue::Item(TomlItem::Str(s)) => Some(s.clone()),
            _ => None,
        },
        None => None,
    }
}

fn mcp_of(es: &Vec<(String, TomlValue)>) -> (r: Result<McpDestructive, ConfigError>)
    ensures
        match r {
            Ok(m) => !mcp_refused(entries_view(es@)) && m == (match lookup(
                entries_view(es@),
                "mcp_destructive"@,
            ) {
                Some(v) => mcp_mode(mcp_text(v)).unwrap(),
                None => McpDestructive::Off,
            }),
            Err(e) => match lookup(entries_view(es@), "mcp_destructive"@) {
                Some(v) => mcp_refused(entries_view(es@)) && e.0@ == mcp_error(mcp_text(v)),
                None => false,
            },
        },
{
    match find_entry(es, "mcp_destructive") {
        Some(i) => {
            let empty = String::new();
            let s: &String = match &es[i].1 {
                TomlValue::Item(TomlItem::Str(s)) => s,
                _ => &empty,
            };
            assert(s@ == mcp_text(es@[i as int].1@));
            if str_is(s, "off") {
                Ok(McpDestructive::Off)
            } else if str_is(s, "confirm") {
                Ok(McpDestructive::Confirm)
            } else if str_is(s, "auto") {
                Ok(McpDestructive::Auto)
            } else {
                let mut msg = String::from_str("invalid mcp_destructive value ");
                let quoted = debug_quote(s.as_str());
                msg.append(quoted.as_str());
                msg.append(": must be one of \"off\", \"confirm\", \"auto\"");
                Err(ConfigError(msg))
            }
        },
        None => Ok(McpDestructive::Off),
    }
}

/// Reads every key out of the parsed table.
pub fn config_from_entries(es: &Vec<(String, TomlValue)>) -> (r: Result<Config, ConfigError>)
    ensures
        match r {
            Ok(c) => !mcp_refused(entries_view(es@)) && config_matches(c, entries_view(es@)),
            Err(e) => match lookup(entries_view(es@), "mcp_destructive"@) {
                Some(v) => mcp_refused(entries_view(es@)) && e.0@ == mcp_error(mcp_text(v)),
                None => false,
            },
        },
{
    let mcp_destructive = match mcp_of(es) {
        Ok(m) => m,
        Err(e) => return Err(e),
    };
    let cfg = Config {
        ttl_days: ttl_of(es),
        store_budget_bytes: budget_of(es),
        noise_globs: noise_globs(es),
        memory_enabled: bool_entry(es, "memory_enabled", true),
        memory_inject_max: inject_max(es),
        mcp_destructive,
        attest_stale: bool_entry(es, "attest_stale", true),
        attest_coverage_path: coverage_path(es),
    };
    Ok(cfg)
}

/// The result of loading a config file's text: the parser's refusal, the
/// `mcp_destructive` refusal, or every key read with its per-key fallback.
pub open spec fn config_from_text_ok(text: Seq<char>, c: Config) -> bool {
    match toml_entries(text) {
        Ok(es) => !mcp_refused(es) && config_matches(c, es),
        Err(_) => false,
    }
}

/// Validate the text of `.agentrec/config.toml`. An unparseable file is an
/// `Err` carrying the parser's message (naming the line/col); value-level
/// problems fall back per key; an invalid `mcp_destructive` is the one
/// value-level `Err`.
pub fn config_from_text(text: &str) -> (r: Result<Config, ConfigError>)
    ensures
        match r {
            Ok(c) => config_from_text_ok(text@, c),
            Err(e) => match toml_entries(text@) {
                Err(m) => e.0@ == m,
                Ok(es) => mcp_refused(es) && e.0@ == mcp_error(mcp_text(lookup(es, "mcp_destructive"@).unwrap())),
            },
        },
{
    match parse_toml(text) {
        Ok(es) => config_from_entries(&es),
        Err(m) => Err(ConfigError(m)),
    }
}

/// The keys of `.agentrec/config.toml`'s text that no reader knows (warned
/// about, then ignored), in table order; the parser's message when the
/// text is not TOML.
pub fn unknown_keys_in(text: &str) -> (r: Result<Vec<String>, ConfigError>)
    ensures
        match toml_entries(text@) {
            Ok(es) => r matches Ok(ks) && ks@.map_values(|s: String| s@) == unknown_keys_spec(es),
            Err(m) => r matches Err(e) && e.0@ == m,
        },
{
    match parse_toml(text) {
        Ok(es) => Ok(unknown_keys(&es)),
        Err(m) => Err(ConfigError(m)),
    }
}

/// The configuration in force given the text of `.agentrec/config.toml`
/// (`None`: the file could not be read): a file that is missing or fails to
/// load leaves every key at its default, all or nothing.
pub fn load_or_default(text: Option<&str>) -> (c: Config)
    ensures
        text is None ==> c.is_default(),
        text matches Some(t) ==> match toml_entries(t@) {
            Err(_) => c.is_default(),
            Ok(es) => if mcp_refused(es) {
                c.is_default()
            } else {
                config_from_text_ok(t@, c)
            },
        },
{
    match text {
        None => Config::default(),
        Some(t) => match config_from_text(t) {
            Ok(c) => c,
            Err(_) => Config::default(),
        },
    }
}

/// The keys no reader knows, in table order.
pub open spec fn is_known_key(k: Seq<char>) -> bool {
    k == "ttl_days"@ || k == "store_budget_bytes"@ || k == "noise_globs"@ || k
        == "memory_enabled"@ || k == "memory_inject_max"@ || k == "mcp_destructive"@ || k
        == "attest_stale"@ || k == "attest_coverage_path"@
}

pub open spec fn unknown_keys_spec(es: Seq<(Seq<char>, TomlValueV)>) -> Seq<Seq<char>>
    decreases es.len(),
{
    if es.len() == 0 {
        seq![]
    } else {
        let rest = unknown_keys_spec(es.drop_last());
        if is_known_key(es.last().0) {
            rest
        } else {
            rest.push(es.last().0)
        }
    }
}

/// The top-level keys of the table that no reader knows (warned about, then
/// ignored), in table order.
pub fn unknown_keys(es: &Vec<(String, TomlValue)>) -> (out: Vec<String>)
    ensures
        out@.map_values(|s: String| s@) == unknown_keys_spec(entries_view(es@)),
{
    let mut out: Vec<String> = Vec::new();
    let mut i: usize = 0;
    while i < es.len()
        invariant
            i <= es.len(),
            out@.map_values(|s: String| s@) == unknown_keys_spec(entries_view(es@.take(i as int))),
        decreases es.len() - i,
    {
        let ghost before = entries_view(es@.take(i as int));
        assert(entries_view(es@.take(i + 1)).drop_last() == before);
        assert(entries_view(es@.take(i + 1)).last() == (es@[i as int].0@, es@[i as int].1@));
        let k = &es[i].0;
        let known = str_is(k, "ttl_days") || str_is(k, "store_budget_bytes") || str_is(
            k,
            "noise_globs",
        ) || str_is(k, "memory_enabled") || str_is(k, "memory_inject_max") || str_is(
            k,
            "mcp_destructive",
        ) || str_is(k, "attest_stale") || str_is(k, "attest_coverage_path");
        if !known {
            out.push(k.clone());
        }
        i = i + 1;
    }
    assert(es@.take(es.len() as int) == es@);
    out
}

// ---- the `key = value` scanner --------------------------------------------------

/// The trimmed value of a `key = value` line (comment stripped after `#`),
/// when the line's key is `key` followed by optional whitespace and `=`.
pub open spec fn config_value_of(line: Seq<char>, key: Seq<char>) -> Option<Seq<char>> {
    let l = trim(before_char(line, '#'));
    if !starts_with(l, key) {
        None
    } else {
        let rest = trim_start(l.skip(key.len() as int));
        if rest.len() > 0 && rest[0] == '=' {
            Some(trim(rest.drop_first()))
        } else {
            None
        }
    }
}

/// The values of every matching line among `ls`, in order.
pub open spec fn config_values_in(ls: Seq<Seq<char>>, key: Seq<char>) -> Seq<Seq<char>>
    decreases ls.len(),
{
    if ls.len() == 0 {
        seq![]
    } else {
        let rest = config_values_in(ls.drop_last(), key);
        match config_value_of(ls.last(), key) {
            Some(v) => rest.push(v),
            None => rest,
        }
    }
}

fn config_value_exec(line: &Vec<char>, key: &Vec<char>) -> (r: Option<Vec<char>>)
    ensures
        match r {
            Some(v) => config_value_of(line@, key@) == Some(v@),
            None => config_value_of(line@, key@) is None,
        },
{
    let (head, _rest) = crate::fmt::split_once_at(line, '#');
    let l = trim_chars(&head);
    if !has_prefix(&l, key) {
        return None;
    }
    let after = slice_chars(&l, key.len(), l.len());
    assert(after@ == l@.skip(key@.len() as int));
    let rest = trim_start_chars(&after);
    if rest.len() > 0 && rest[0] == '=' {
        let value = slice_chars(&rest, 1, rest.len());
        assert(value@ == rest@.drop_first());
        Some(trim_chars(&value))
    } else {
        None
    }
}

/// Every `key = value` line in `text` (comments stripped after `#`), in file
/// order, with the raw trimmed value text. `key` is matched as a literal
/// prefix before whitespace and `=`, so `memory_enabled_foo = true` never
/// matches `memory_enabled`.
pub fn config_values(text: &str, key: &str) -> (out: Vec<String>)
    ensures
        out@.map_values(|s: String| s@) == config_values_in(lines(text@), key@),
{
    let t = chars_of(text);
    let k = chars_of(key);
    let ls = split_lines(&t);
    let ghost all = lines(text@);
    let mut out: Vec<String> = Vec::new();
    let mut i: usize = 0;
    while i < ls.len()
        invariant
            i <= ls.len(),
            ls@.len() == all.len(),
            k@ == key@,
            forall|m: int| 0 <= m < ls@.len() ==> #[trigger] ls@[m]@ == all[m],
            out@.map_values(|s: String| s@) == config_values_in(all.take(i as int), key@),
        decreases ls.len() - i,
    {
        assert(all.take(i + 1).drop_last() == all.take(i as int));
        assert(all.take(i + 1).last() == ls@[i as int]@);
        match config_value_exec(&ls[i], &k) {
            Some(v) => {
                out.push(string_of(&v));
            },
            None => {},
        }
        i = i + 1;
    }
    assert(all.take(ls.len() as int) == all);
    out
}

/// The first of `values` that reads as a positive `u64`, else the default
/// budget.
pub open spec fn budget_from_values(values: Seq<Seq<char>>) -> u64
    decreases values.len(),
{
    if values.len() == 0 {
        MAX_STORE_BYTES
    } else {
        match parse_u64_spec(values[0]) {
            Some(n) => if n > 0 {
                n
            } else {
                budget_from_values(values.drop_first())
            },
            None => budget_from_values(values.drop_first()),
        }
    }
}

/// A zero budget never takes effect: whatever the values, the budget is
/// positive (a `0` would make every snapshot evictable).
pub proof fn law_store_budget_is_never_zero(values: Seq<Seq<char>>)
    ensures
        budget_from_values(values) > 0,
    decreases values.len(),
{
    if values.len() > 0 {
        law_store_budget_is_never_zero(values.drop_first());
    }
}

/// The store budget a config file's text sets: the first `store_budget_bytes`
/// line whose value reads as a positive `u64`; a missing file, key or
/// readable value, or an explicit `0`, falls through to the 2 GiB default.
pub fn store_budget_from_text(text: Option<&str>) -> (r: u64)
    ensures
        r == (match text {
            Some(t) => budget_from_values(config_values_in(lines(t@), "store_budget_bytes"@)),
            None => MAX_STORE_BYTES,
        }),
{
    let t = match text {
        Some(t) => t,
        None => return MAX_STORE_BYTES,
    };
    let values = config_values(t, "store_budget_bytes");
    let ghost vs = values@.map_values(|s: String| s@);
    let mut i: usize = 0;
    assert(vs.skip(0) == vs);
    while i < values.len()
        invariant
            i <= values.len(),
            vs == values@.map_values(|s: String| s@),
            vs == config_values_in(lines(t@), "store_budget_bytes"@),
            text == Some(t),
            budget_from_values(vs) == budget_from_values(vs.skip(i as int)),
        decreases values.len() - i,
    {
        assert(vs.skip(i as int)[0] == values@[i as int]@);
        assert(vs.skip(i as int).drop_first() == vs.skip(i + 1));
        let v = chars_of(values[i].as_str());
        match parse_u64(&v) {
            Some(n) => if n > 0 {
                assert(v@ == vs.skip(i as int)[0]);
                assert(vs.skip(i as int).len() > 0);
                assert(budget_from_values(vs.skip(i as int)) == n);
                return n;
            },
            None => {},
        }
        i = i + 1;
    }
    assert(vs.skip(i as int).len() == 0);
    MAX_STORE_BYTES
}

} // verus!
