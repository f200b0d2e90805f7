use vstd::prelude::*;
use crate::detect::{detect_format, detected_value, parse_to_value};
use crate::fence::{fence_body, find_tick3, inline_from, strip_fences, strip_markdown_fences};
use crate::model::{
    default_target_seq, default_targets, format_name, target_name, DataFormat, TargetFormat,
};
use crate::outside::{
    json_accepts, json_value_of,
    chars_of, compact_json, compact_of, pretty_of, toml_of, yaml_of, decode_lossy, lossy_text, lower_of, lowercase, pretty_json,
    string_of, toml_text, yaml_text,
};
use crate::csv_out::{csv_rendering, json_to_csv_string};
use vstd::utf8::encode_utf8;
use crate::text::{copy_range, find_char, find_char_from, lemma_find_char, trim, trimmed};

verus! {

/// One entry of a result: a key, and a text or nothing.
pub type Entry = (Seq<char>, Option<Seq<char>>);

pub open spec fn opt_text(o: Option<String>) -> Option<Seq<char>> {
    match o {
        Some(s) => Some(s@),
        None => None,
    }
}

/// The position of the first entry from `i` on with key `k`, or the number
/// of entries.
pub open spec fn key_pos(m: Seq<Entry>, k: Seq<char>, i: int) -> int
    decreases m.len() - i,
{
    if i < 0 || i >= m.len() {
        m.len() as int
    } else if m[i].0 == k {
        i
    } else {
        key_pos(m, k, i + 1)
    }
}

/// The entries with `v` stored under `k`: in place of the entry with that
/// key, or after the others.
pub open spec fn put(m: Seq<Entry>, k: Seq<char>, v: Option<Seq<char>>) -> Seq<Entry> {
    let p = key_pos(m, k, 0);
    if p < m.len() {
        m.update(p, (k, v))
    } else {
        m.push((k, v))
    }
}

/// No key occurs twice.
pub open spec fn keys_unique(m: Seq<Entry>) -> bool {
    forall|i: int, j: int| 0 <= i < j < m.len() ==> m[i].0 != m[j].0
}

proof fn lemma_key_pos_absent(m: Seq<Entry>, k: Seq<char>, i: int)
    requires
        0 <= i <= m.len(),
        key_pos(m, k, i) == m.len(),
    ensures
        forall|j: int| i <= j < m.len() ==> m[j].0 != k,
    decreases m.len() - i,
{
    if i < m.len() {
        lemma_key_pos_absent(m, k, i + 1);
    }
}

pub proof fn lemma_key_pos_bounds(m: Seq<Entry>, k: Seq<char>, i: int)
    requires
        0 <= i <= m.len(),
    ensures
        i <= key_pos(m, k, i) <= m.len(),
        key_pos(m, k, i) < m.len() ==> m[key_pos(m, k, i)].0 == k,
    decreases m.len() - i,
{
    if i < m.len() && m[i].0 != k {
        lemma_key_pos_bounds(m, k, i + 1);
    }
}

/// Storing under a key keeps every key once.
pub proof fn lemma_put_keeps_keys_unique(m: Seq<Entry>, k: Seq<char>, v: Option<Seq<char>>)
    requires
        keys_unique(m),
    ensures
        keys_unique(put(m, k, v)),
{
    lemma_key_pos_bounds(m, k, 0);
    if key_pos(m, k, 0) == m.len() {
        lemma_key_pos_absent(m, k, 0);
    }
}

/// What is stored under `k`, if the key is there.
pub open spec fn lookup(m: Seq<Entry>, k: Seq<char>) -> Option<Option<Seq<char>>> {
    let p = key_pos(m, k, 0);
    if p < m.len() {
        Some(m[p].1)
    } else {
        None
    }
}

/// A string-keyed result whose values are texts or null; a key occurs once.
pub struct FormatMap {
    entries: Vec<(String, Option<String>)>,
}

impl View for FormatMap {
    type V = Seq<Entry>;

    closed spec fn view(&self) -> Seq<Entry> {
        self.entries@.map_values(|e: (String, Option<String>)| (e.0@, opt_text(e.1)))
    }
}

impl FormatMap {
    pub fn new() -> (r: FormatMap)
        ensures
            r@ == Seq::<Entry>::empty(),
            keys_unique(r@),
    {
        let r = FormatMap { entries: Vec::new() };
        assert(r@ =~= Seq::<Entry>::empty());
        r
    }

    fn position(&self, k: &String) -> (r: usize)
        ensures
            r as int == key_pos(self@, k@, 0),
            r <= self.entries.len(),
    {
        let mut j: usize = 0;
        while j < self.entries.len() && !(self.entries[j].0 == *k)
            invariant
                j <= self.entries.len(),
                key_pos(self@, k@, j as int) == key_pos(self@, k@, 0),
            decreases self.entries.len() - j,
        {
            j = j + 1;
        }
        j
    }

    /// Stores `v` under `k`, replacing what was there.
    pub fn insert(&mut self, k: String, v: Option<String>)
        ensures
            final(self)@ == put(old(self)@, k@, opt_text(v)),
            keys_unique(old(self)@) ==> keys_unique(final(self)@),
    {
        proof {
            if keys_unique(self@) {
                lemma_put_keeps_keys_unique(self@, k@, opt_text(v));
            }
        }
        let p = self.position(&k);
        let ghost before = self@;
        if p < self.entries.len() {
            self.entries.set(p, (k, v));
            assert(self@ =~= before.update(p as int, (k@, opt_text(v))));
        } else {
            self.entries.push((k, v));
            assert(self@ =~= before.push((k@, opt_text(v))));
        }
    }

    /// What is stored under `k`, if the key is there.
    pub fn get(&self, k: &str) -> (r: Option<Option<String>>)
        ensures
            r matches Some(v) ==> lookup(self@, k@) == Some(opt_text(v)),
            r is None <==> lookup(self@, k@) is None,
    {
        let key = k.to_owned();
        let p = self.position(&key);
        if p < self.entries.len() {
            Some(self.entries[p].1.clone())
        } else {
            None
        }
    }

    pub fn contains_key(&self, k: &str) -> (r: bool)
        ensures
            r == (lookup(self@, k@) is Some),
    {
        let key = k.to_owned();
        self.position(&key) < self.entries.len()
    }

    pub fn len(&self) -> (r: usize)
        ensures
            r == self@.len(),
    {
        self.entries.len()
    }

    /// The entries, in the order their keys were first stored.
    pub fn into_entries(self) -> (r: Vec<(String, Option<String>)>)
        ensures
            r@.map_values(|e: (String, Option<String>)| (e.0@, opt_text(e.1))) == self@,
    {
        self.entries
    }
}

/// Whether `t` is the target that the requested name `s` stands for: its
/// trimmed lower case names one of the known targets (`md` standing for
/// `markdown_table`), or else an opaque target under the name as requested.
pub open spec fn resolves(s: Seq<char>, t: TargetFormat) -> bool {
    let n = lower_of(trim(s));
    match t {
        TargetFormat::Json => n == "json"@,
        TargetFormat::Yaml => n == "yaml"@,
        TargetFormat::Toml => n == "toml"@,
        TargetFormat::Csv => n == "csv"@,
        TargetFormat::MarkdownTable => n == "markdown_table"@ || n == "md"@,
        TargetFormat::Other(x) => x@ == s && n != "json"@ && n != "yaml"@ && n != "toml"@ && n
            != "csv"@ && n != "markdown_table"@ && n != "md"@,
    }
}

fn text_is(a: &Vec<char>, b: &str) -> (r: bool)
    ensures
        r == (a@ == b@),
{
    let sa = string_of(a);
    let sb = b.to_owned();
    sa == sb
}

/// The target that a requested name stands for.
pub fn to_target(s: &str) -> (r: TargetFormat)
    ensures
        resolves(s@, r),
{
    let n = lowercase(&trimmed(&chars_of(s)));
    if text_is(&n, "json") {
        TargetFormat::Json
    } else if text_is(&n, "yaml") {
        TargetFormat::Yaml
    } else if text_is(&n, "toml") {
        TargetFormat::Toml
    } else if text_is(&n, "csv") {
        TargetFormat::Csv
    } else if text_is(&n, "markdown_table") || text_is(&n, "md") {
        TargetFormat::MarkdownTable
    } else {
        TargetFormat::Other(s.to_owned())
    }
}

/// The renderings of one value: JSON, YAML, TOML and CSV, each a text or
/// nothing.
pub type Renderings = (Option<Seq<char>>, Option<Seq<char>>, Option<Seq<char>>, Option<Seq<char>>);

/// The renderings of a value: its indented JSON, always; its YAML and its
/// TOML where the writers succeed; its CSV where it is an array of objects.
pub open spec fn renderings_of(v: serde_json::Value, r: Renderings) -> bool {
    &&& r.0 == Some(pretty_of(v))
    &&& r.1 == yaml_of(v)
    &&& r.2 == toml_of(v)
    &&& csv_rendering(v, r.3)
}

/// One of the four keys that every result holds as text.
pub open spec fn base_key(k: Seq<char>) -> bool {
    k == "Format"@ || k == "Original"@ || k == "Beautified"@ || k == "normal"@
}

/// What a target is rendered as.
pub open spec fn rendering_for(t: TargetFormat, r: Renderings) -> Option<Seq<char>> {
    match t {
        TargetFormat::Json => r.0,
        TargetFormat::Yaml => r.1,
        TargetFormat::Toml => r.2,
        TargetFormat::Csv => r.3,
        TargetFormat::MarkdownTable => None,
        TargetFormat::Other(_) => None,
    }
}

/// `m` with each target, in order, stored under its name; where `keep_base`
/// holds, a target named like one of the four base keys is passed over.
pub open spec fn with_targets(
    m: Seq<Entry>,
    ts: Seq<TargetFormat>,
    r: Renderings,
    keep_base: bool,
) -> Seq<Entry>
    decreases ts.len(),
{
    if ts.len() == 0 {
        m
    } else if keep_base && base_key(target_name(ts.last())) {
        with_targets(m, ts.drop_last(), r, keep_base)
    } else {
        put(
            with_targets(m, ts.drop_last(), r, keep_base),
            target_name(ts.last()),
            rendering_for(ts.last(), r),
        )
    }
}

fn is_base_name(k: &String) -> (r: bool)
    ensures
        r == base_key(k@),
{
    *k == "Format".to_owned() || *k == "Original".to_owned() || *k == "Beautified".to_owned()
        || *k == "normal".to_owned()
}

fn copy_opt(o: &Option<String>) -> (r: Option<String>)
    ensures
        opt_text(r) == opt_text(*o),
{
    match o {
        Some(s) => Some(s.clone()),
        None => None,
    }
}

fn add_targets(
    out: &mut FormatMap,
    ts: &[TargetFormat],
    json: &Option<String>,
    yaml: &Option<String>,
    toml: &Option<String>,
    csv: &Option<String>,
    keep_base: bool,
)
    ensures
        final(out)@ == with_targets(
            old(out)@,
            ts@,
            (opt_text(*json), opt_text(*yaml), opt_text(*toml), opt_text(*csv)),
            keep_base,
        ),
        keys_unique(old(out)@) ==> keys_unique(final(out)@),
{
    let ghost r = (opt_text(*json), opt_text(*yaml), opt_text(*toml), opt_text(*csv));
    let mut i: usize = 0;
    while i < ts.len()
        invariant
            i <= ts.len(),
            r == (opt_text(*json), opt_text(*yaml), opt_text(*toml), opt_text(*csv)),
            out@ == with_targets(old(out)@, ts@.subrange(0, i as int), r, keep_base),
            keys_unique(old(out)@) ==> keys_unique(out@),
        decreases ts.len() - i,
    {
        let t = &ts[i];
        let v = match t {
            TargetFormat::Json => copy_opt(json),
            TargetFormat::Yaml => copy_opt(yaml),
            TargetFormat::Toml => copy_opt(toml),
            TargetFormat::Csv => copy_opt(csv),
            TargetFormat::MarkdownTable => None,
            TargetFormat::Other(_) => None,
        };
        assert(opt_text(v) == rendering_for(ts@[i as int], r));
        let name = t.name();
        if !(keep_base && is_base_name(&name)) {
            out.insert(name, v);
        }
        assert(ts@.subrange(0, i + 1).drop_last() =~= ts@.subrange(0, i as int));
        i = i + 1;
    }
    assert(ts@.subrange(0, i as int) =~= ts@);
}

/// Renders a value for each target, in order, under the target's name: JSON
/// always (indented), YAML, TOML and CSV where the value has such a
/// rendering, and nothing for a Markdown table or an unknown target. A name
/// that occurs twice keeps its last rendering.
pub fn convert_value_to_formats_with_targets(v: &serde_json::Value, targets: &[TargetFormat]) -> (r:
    FormatMap)
    ensures
        exists|rend: Renderings|
            #![trigger with_targets(Seq::<Entry>::empty(), targets@, rend, false)]
            renderings_of(*v, rend) && r@ == with_targets(
                Seq::<Entry>::empty(),
                targets@,
                rend,
                false,
            ),
        keys_unique(r@),
{
    let mut out = FormatMap::new();
    render_into(&mut out, v, targets, false);
    out
}

fn render_into(out: &mut FormatMap, v: &serde_json::Value, targets: &[TargetFormat], keep_base: bool)
    ensures
        exists|rend: Renderings|
            #![trigger with_targets(old(out)@, targets@, rend, keep_base)]
            renderings_of(*v, rend) && final(out)@ == with_targets(
                old(out)@,
                targets@,
                rend,
                keep_base,
            ),
        keys_unique(old(out)@) ==> keys_unique(final(out)@),
{
    let json = Some(pretty_json(v));
    let yaml = yaml_text(v);
    let toml = toml_text(v);
    let csv = json_to_csv_string(v);
    add_targets(out, targets, &json, &yaml, &toml, &csv, keep_base);
    let ghost rend = (opt_text(json), opt_text(yaml), opt_text(toml), opt_text(csv));
    assert(renderings_of(*v, rend) && out@ == with_targets(old(out)@, targets@, rend, keep_base));
}

/// The bytes that are read: the first `max` of them where there are more.
pub open spec fn kept_bytes(input: Seq<u8>, max: Option<usize>) -> Seq<u8> {
    match max {
        Some(n) => if input.len() > n {
            input.subrange(0, n as int)
        } else {
            input
        },
        None => input,
    }
}

/// The text that detection works on: the kept bytes, decoded, with code
/// fences taken off.
pub open spec fn cleaned_text(input: Seq<u8>, max: Option<usize>) -> Seq<char> {
    strip_fences(lossy_text(kept_bytes(input, max)))
}

/// The four entries that every result has.
pub open spec fn base_entries(
    format: Seq<char>,
    original: Seq<char>,
    beautified: Seq<char>,
    normal: Seq<char>,
) -> Seq<Entry> {
    seq![
        ("Format"@, Some(format)),
        ("Original"@, Some(original)),
        ("Beautified"@, Some(beautified)),
        ("normal"@, Some(normal)),
    ]
}

/// The requested target names, if any.
pub open spec fn request_names(targets: Option<&[&str]>) -> Option<Seq<Seq<char>>> {
    match targets {
        Some(l) => Some(l@.map_values(|x: &str| x@)),
        None => None,
    }
}

/// Whether `ts` are the targets for a request: one per requested name, or
/// the default set where none are named.
pub open spec fn resolved_targets(req: Option<Seq<Seq<char>>>, ts: Seq<TargetFormat>) -> bool {
    match req {
        Some(l) => ts.len() == l.len() && forall|i: int|
            0 <= i < l.len() ==> #[trigger] resolves(l[i], ts[i]),
        None => ts == default_target_seq(),
    }
}

/// What a conversion of the cleaned text `c` holds: for blank text, the four
/// entries with format `unknown` and empty texts; for text that no format
/// reads, the four entries with format `unknown` and `c` echoed three times;
/// else the detected format's name, `c`, the indented and the compact JSON
/// of the detected value, and each requested target rendered from that value,
/// except a target named like one of those four keys, which is passed over.
pub open spec fn converted(r: Seq<Entry>, c: Seq<char>, req: Option<Seq<Seq<char>>>) -> bool {
    if trim(c).len() == 0 {
        r == base_entries("unknown"@, seq![], seq![], seq![])
    } else if detect_format(c) == DataFormat::Unknown {
        r == base_entries("unknown"@, c, c, c)
    } else {
        let v = detected_value(c)->Some_0;
        let base = base_entries(format_name(detect_format(c)), c, pretty_of(v), compact_of(v));
        exists|ts: Seq<TargetFormat>, rend: Renderings|
            #![trigger with_targets(base, ts, rend, true)]
            renderings_of(v, rend) && resolved_targets(req, ts) && r == with_targets(
                base,
                ts,
                rend,
                true,
            )
    }
}

fn keep_bytes(input: &[u8], max_bytes: Option<usize>) -> (r: Vec<u8>)
    ensures
        r@ == kept_bytes(input@, max_bytes),
{
    let n: usize = match max_bytes {
        Some(m) => if input.len() > m {
            m
        } else {
            input.len()
        },
        None => input.len(),
    };
    let mut r: Vec<u8> = Vec::new();
    let mut i: usize = 0;
    while i < n
        invariant
            i <= n <= input.len(),
            r@ == input@.subrange(0, i as int),
        decreases n - i,
    {
        r.push(input[i]);
        i = i + 1;
        assert(r@ =~= input@.subrange(0, i as int));
    }
    assert(input@.subrange(0, input@.len() as int) =~= input@);
    r
}

fn resolve_targets(targets: Option<&[&str]>) -> (r: Vec<TargetFormat>)
    ensures
        resolved_targets(request_names(targets), r@),
{
    match targets {
        None => default_targets(),
        Some(list) => {
            let mut r: Vec<TargetFormat> = Vec::new();
            let mut i: usize = 0;
            while i < list.len()
                invariant
                    i <= list.len(),
                    r.len() == i,
                    forall|k: int| 0 <= k < i ==> #[trigger] resolves(list@[k]@, r@[k]),
                decreases list.len() - i,
            {
                r.push(to_target(list[i]));
                i = i + 1;
            }
            proof {
                let l = list@.map_values(|x: &str| x@);
                assert forall|k: int| 0 <= k < l.len() implies #[trigger] resolves(l[k], r@[k]) by {
                    assert(l[k] == list@[k]@);
                }
            }
            r
        },
    }
}

proof fn lemma_key_absent(m: Seq<Entry>, k: Seq<char>, i: int)
    requires
        0 <= i <= m.len(),
        forall|j: int| i <= j < m.len() ==> m[j].0 != k,
    ensures
        key_pos(m, k, i) == m.len(),
    decreases m.len() - i,
{
    if i < m.len() {
        lemma_key_absent(m, k, i + 1);
    }
}

fn text_entry(out: &mut FormatMap, k: &str, v: &Vec<char>)
    requires
        forall|j: int| 0 <= j < old(out)@.len() ==> old(out)@[j].0 != k@,
    ensures
        final(out)@ == old(out)@.push((k@, Some(v@))),
        keys_unique(old(out)@) ==> keys_unique(final(out)@),
{
    proof {
        lemma_key_absent(out@, k@, 0);
    }
    out.insert(k.to_owned(), Some(string_of(v)));
}

/// Converts a blob: truncates it to `max_bytes` where it is longer, decodes
/// it, takes code fences off, detects its format and renders it for each
/// requested target (every target where `targets` is `None`). Text that no
/// format reads is echoed back. The four base entries always hold text: a
/// target named like one of them is passed over. The flag is reserved and
/// changes nothing.
pub fn convert_map(
    input: &[u8],
    targets: Option<&[&str]>,
    allow_permissive: bool,
    max_bytes: Option<usize>,
) -> (r: FormatMap)
    ensures
        converted(r@, cleaned_text(input@, max_bytes), request_names(targets)),
        keys_unique(r@),
{
    let buf = keep_bytes(input, max_bytes);
    let text = decode_lossy(buf.as_slice());
    let cleaned = strip_markdown_fences(&text);
    let ghost c = cleaned@;
    let mut out = FormatMap::new();
    proof {
        reveal_strlit("Format");
        reveal_strlit("Original");
        reveal_strlit("Beautified");
        reveal_strlit("normal");
        assert("Format"@[0] == 'F' && "Original"@[0] == 'O' && "Beautified"@[0] == 'B'
            && "normal"@[0] == 'n');
    }
    if trimmed(&cleaned).len() == 0 {
        let empty: Vec<char> = Vec::new();
        text_entry(&mut out, "Format", &chars_of("unknown"));
        text_entry(&mut out, "Original", &empty);
        text_entry(&mut out, "Beautified", &empty);
        text_entry(&mut out, "normal", &empty);
        assert(out@ =~= base_entries("unknown"@, seq![], seq![], seq![]));
        return out;
    }
    match parse_to_value(&cleaned, allow_permissive) {
        Ok((val, f)) => {
            let b = chars_of(pretty_json(&val).as_str());
            let n = chars_of(compact_json(&val).as_str());
            text_entry(&mut out, "Format", &chars_of(f.as_str()));
            text_entry(&mut out, "Original", &cleaned);
            text_entry(&mut out, "Beautified", &b);
            text_entry(&mut out, "normal", &n);
            let ghost base = base_entries(format_name(f), c, b@, n@);
            assert(out@ =~= base);
            let ts = resolve_targets(targets);
            render_into(&mut out, &val, ts.as_slice(), true);
            let ghost rend = choose|rend: Renderings|
                #![trigger with_targets(base, ts@, rend, true)]
                renderings_of(val, rend) && out@ == with_targets(base, ts@, rend, true);
            assert(renderings_of(val, rend) && resolved_targets(request_names(targets), ts@)
                && out@ == with_targets(base, ts@, rend, true));
            assert(detected_value(c)->Some_0 == val);
            assert(base == base_entries(
                format_name(detect_format(c)),
                c,
                pretty_of(val),
                compact_of(val),
            ));
            out
        },
        Err(()) => {
            text_entry(&mut out, "Format", &chars_of("unknown"));
            text_entry(&mut out, "Original", &cleaned);
            text_entry(&mut out, "Beautified", &cleaned);
            text_entry(&mut out, "normal", &cleaned);
            assert(out@ =~= base_entries("unknown"@, c, c, c));
            out
        },
    }
}

/// The pieces of `s` from position `i` on, split at commas.
pub open spec fn comma_pieces_from(s: Seq<char>, i: int) -> Seq<Seq<char>>
    decreases s.len() - i,
    via comma_pieces_decreases
{
    if i < 0 || i > s.len() {
        seq![]
    } else {
        let e = find_char(s, ',', i);
        seq![s.subrange(i, e)] + if e < s.len() {
            comma_pieces_from(s, e + 1)
        } else {
            seq![]
        }
    }
}

#[via_fn]
proof fn comma_pieces_decreases(s: Seq<char>, i: int) {
    if 0 <= i <= s.len() {
        lemma_find_char(s, ',', i);
    }
}

/// The target names in a comma-separated list, each trimmed.
pub open spec fn listed_names(list: Option<String>) -> Option<Seq<Seq<char>>> {
    match list {
        Some(l) => Some(comma_pieces_from(l@, 0).map_values(|p: Seq<char>| trim(p))),
        None => None,
    }
}

fn split_commas(s: &Vec<char>) -> (r: Vec<String>)
    ensures
        r@.map_values(|x: String| x@) == comma_pieces_from(s@, 0).map_values(
            |p: Seq<char>| trim(p),
        ),
{
    let ghost want = comma_pieces_from(s@, 0).map_values(|p: Seq<char>| trim(p));
    let mut out: Vec<String> = Vec::new();
    let mut i: usize = 0;
    let mut e = find_char_from(s, ',', 0);
    while e < s.len()
        invariant
            i <= e <= s.len(),
            e as int == find_char(s@, ',', i as int),
            out@.map_values(|x: String| x@) + comma_pieces_from(s@, i as int).map_values(
                |p: Seq<char>| trim(p),
            ) == want,
        decreases s.len() - i,
    {
        let ghost before = out@.map_values(|x: String| x@);
        let piece = trimmed(&copy_range(s, i, e));
        out.push(string_of(&piece));
        assert(out@.map_values(|x: String| x@) =~= before.push(piece@));
        assert(comma_pieces_from(s@, i as int) == seq![s@.subrange(i as int, e as int)]
            + comma_pieces_from(s@, e + 1));
        assert(out@.map_values(|x: String| x@) + comma_pieces_from(s@, e + 1).map_values(
            |p: Seq<char>| trim(p),
        ) =~= before + comma_pieces_from(s@, i as int).map_values(|p: Seq<char>| trim(p)));
        i = e + 1;
        e = find_char_from(s, ',', i);
    }
    let ghost before = out@.map_values(|x: String| x@);
    let piece = trimmed(&copy_range(s, i, e));
    out.push(string_of(&piece));
    assert(comma_pieces_from(s@, i as int) == seq![s@.subrange(i as int, e as int)]);
    assert(out@.map_values(|x: String| x@) =~= before + comma_pieces_from(s@, i as int).map_values(
        |p: Seq<char>| trim(p),
    ));
    out
}

/// Converts a text with the targets given as one comma-separated list, each
/// name trimmed; no byte limit applies.
pub fn convert_map_js(input: &str, targets: Option<String>, allow_permissive: bool) -> (r: FormatMap)
    ensures
        converted(r@, cleaned_text(encode_utf8(input@), None), listed_names(targets)),
        keys_unique(r@),
{
    match &targets {
        None => convert_map(input.as_bytes(), None, allow_permissive, None),
        Some(t) => {
            let names = split_commas(&chars_of(t.as_str()));
            let mut refs: Vec<&str> = Vec::new();
            let mut i: usize = 0;
            while i < names.len()
                invariant
                    i <= names.len(),
                    refs.len() == i,
                    forall|k: int| 0 <= k < i ==> #[trigger] refs@[k]@ == names@[k]@,
                decreases names.len() - i,
            {
                refs.push(names[i].as_str());
                i = i + 1;
            }
            assert(refs@.map_values(|x: &str| x@) =~= names@.map_values(|x: String| x@));
            convert_map(input.as_bytes(), Some(refs.as_slice()), allow_permissive, None)
        },
    }
}

proof fn lemma_no_tick3(s: Seq<char>, i: int)
    requires
        0 <= i,
        !s.contains('`'),
    ensures
        find_tick3(s, i) == s.len(),
    decreases s.len() - i,
{
    if i + 3 <= s.len() {
        assert(s[i] != '`');
        lemma_no_tick3(s, i + 1);
    }
}

/// A text without backticks passes the fence stripper unchanged.
pub proof fn lemma_no_backticks_unchanged(s: Seq<char>)
    requires
        !s.contains('`'),
    ensures
        strip_fences(s) == s,
{
    lemma_no_tick3(s, 0);
    assert(fence_body(s) is None);
    if s.len() > 0 {
        lemma_find_char(s, '`', 0);
        assert(find_char(s, '`', 0) == s.len());
        assert(inline_from(s, 0) =~= s);
    }
}

/// Converting again the compact rendering of a JSON document: where that
/// rendering holds no backtick, is not blank and reads as JSON, a second
/// conversion of bytes that decode to it sees exactly that text and detects
/// it as JSON.
pub proof fn lemma_json_redetected(input: Seq<u8>, normal: Seq<char>)
    requires
        lossy_text(input) == normal,
        !normal.contains('`'),
        trim(normal).len() > 0,
        json_accepts(normal),
    ensures
        cleaned_text(input, None) == normal,
        detect_format(cleaned_text(input, None)) == DataFormat::Json,
{
    lemma_no_backticks_unchanged(normal);
}

proof fn lemma_key_pos_update(m: Seq<Entry>, p: int, e: Entry, k: Seq<char>, i: int)
    requires
        0 <= p < m.len(),
        0 <= i <= m.len(),
        m[p].0 == e.0,
        e.0 != k,
    ensures
        key_pos(m.update(p, e), k, i) == key_pos(m, k, i),
    decreases m.len() - i,
{
    if i < m.len() {
        lemma_key_pos_update(m, p, e, k, i + 1);
    }
}

proof fn lemma_key_pos_push(m: Seq<Entry>, e: Entry, k: Seq<char>, i: int)
    requires
        0 <= i <= m.len(),
        e.0 != k,
    ensures
        key_pos(m, k, i) < m.len() ==> key_pos(m.push(e), k, i) == key_pos(m, k, i),
        key_pos(m, k, i) >= m.len() ==> key_pos(m.push(e), k, i) == m.len() + 1,
    decreases m.len() - i + 1,
{
    if i < m.len() {
        lemma_key_pos_push(m, e, k, i + 1);
    } else {
        assert(key_pos(m.push(e), k, i + 1) == m.len() + 1);
    }
}

/// Storing under one key leaves what is stored under another.
pub proof fn lemma_put_other(m: Seq<Entry>, k: Seq<char>, v: Option<Seq<char>>, k2: Seq<char>)
    requires
        k != k2,
    ensures
        lookup(put(m, k, v), k2) == lookup(m, k2),
{
    lemma_key_pos_bounds(m, k, 0);
    lemma_key_pos_bounds(m, k2, 0);
    let p = key_pos(m, k, 0);
    let q = key_pos(m, k2, 0);
    if p < m.len() {
        lemma_key_pos_update(m, p, (k, v), k2, 0);
        if q < m.len() {
            assert(q != p);
            assert(m.update(p, (k, v))[q] == m[q]);
        }
    } else {
        lemma_key_pos_push(m, (k, v), k2, 0);
        if q < m.len() {
            assert(m.push((k, v))[q] == m[q]);
        }
    }
}

/// What was just stored under a key is what the key holds.
pub proof fn lemma_put_same(m: Seq<Entry>, k: Seq<char>, v: Option<Seq<char>>)
    ensures
        lookup(put(m, k, v), k) == Some(v),
{
    lemma_key_pos_bounds(m, k, 0);
    let p = key_pos(m, k, 0);
    if p < m.len() {
        lemma_key_pos_bounds(m.update(p, (k, v)), k, 0);
        lemma_key_pos_update_same(m, p, (k, v), 0);
    } else {
        lemma_key_pos_absent(m, k, 0);
        lemma_key_pos_absent_push(m, k, v, 0);
    }
}

proof fn lemma_key_pos_update_same(m: Seq<Entry>, p: int, e: Entry, i: int)
    requires
        0 <= i <= p < m.len(),
        key_pos(m, e.0, i) == p,
    ensures
        key_pos(m.update(p, e), e.0, i) == p,
    decreases p - i,
{
    if i < p {
        lemma_key_pos_update_same(m, p, e, i + 1);
    }
}

proof fn lemma_key_pos_absent_push(m: Seq<Entry>, k: Seq<char>, v: Option<Seq<char>>, i: int)
    requires
        0 <= i <= m.len(),
        forall|j: int| i <= j < m.len() ==> m[j].0 != k,
    ensures
        key_pos(m.push((k, v)), k, i) == m.len(),
    decreases m.len() - i,
{
    if i < m.len() {
        lemma_key_pos_absent_push(m, k, v, i + 1);
    }
}

/// Each target's entry is its own rendering of the value: under the name of
/// the last target that has it, the result holds that target's rendering,
/// whatever the other targets are.
pub proof fn lemma_target_entry(m: Seq<Entry>, ts: Seq<TargetFormat>, r: Renderings, i: int)
    requires
        0 <= i < ts.len(),
        forall|j: int| i < j < ts.len() ==> target_name(#[trigger] ts[j]) != target_name(ts[i]),
    ensures
        lookup(with_targets(m, ts, r, false), target_name(ts[i])) == Some(rendering_for(ts[i], r)),
    decreases ts.len(),
{
    let rest = with_targets(m, ts.drop_last(), r, false);
    if i == ts.len() - 1 {
        lemma_put_same(rest, target_name(ts.last()), rendering_for(ts.last(), r));
    } else {
        assert(target_name(ts[ts.len() - 1]) != target_name(ts[i]));
        lemma_put_other(rest, target_name(ts.last()), rendering_for(ts.last(), r), target_name(ts[i]));
        assert forall|j: int| i < j < ts.drop_last().len() implies target_name(
            #[trigger] ts.drop_last()[j],
        ) != target_name(ts.drop_last()[i]) by {
            assert(ts.drop_last()[j] == ts[j]);
        }
        lemma_target_entry(m, ts.drop_last(), r, i);
    }
}

/// Where base keys are kept, adding targets leaves what a base key holds.
pub proof fn lemma_targets_keep_base(m: Seq<Entry>, ts: Seq<TargetFormat>, r: Renderings, k: Seq<char>)
    requires
        base_key(k),
    ensures
        lookup(with_targets(m, ts, r, true), k) == lookup(m, k),
    decreases ts.len(),
{
    if ts.len() > 0 {
        lemma_targets_keep_base(m, ts.drop_last(), r, k);
        if !base_key(target_name(ts.last())) {
            lemma_put_other(with_targets(m, ts.drop_last(), r, true), target_name(ts.last()), rendering_for(ts.last(), r), k);
        }
    }
}

/// Converting the compact JSON of a value again gives that same text as
/// `normal`, with format `json`, wherever the text holds no backtick, is not
/// blank, and serde_json reads it back to a value with the same compact JSON.
pub proof fn lemma_normal_stable(
    v: serde_json::Value,
    w: serde_json::Value,
    input: Seq<u8>,
    r: Seq<Entry>,
    req: Option<Seq<Seq<char>>>,
)
    requires
        json_value_of(compact_of(v)) == Some(w),
        compact_of(w) == compact_of(v),
        !compact_of(v).contains('`'),
        trim(compact_of(v)).len() > 0,
        lossy_text(input) == compact_of(v),
        converted(r, cleaned_text(input, None), req),
    ensures
        lookup(r, "normal"@) == Some(Some(compact_of(v))),
        lookup(r, "Format"@) == Some(Some("json"@)),
{
    let n = compact_of(v);
    lemma_json_redetected(input, n);
    reveal_strlit("Format");
    reveal_strlit("Original");
    reveal_strlit("Beautified");
    reveal_strlit("normal");
    reveal_strlit("json");
    let base = base_entries("json"@, n, pretty_of(w), n);
    assert("Format"@[0] == 'F' && "Original"@[0] == 'O' && "Beautified"@[0] == 'B'
        && "normal"@[0] == 'n');
    assert(key_pos(base, "Format"@, 0) == 0);
    assert(key_pos(base, "normal"@, 3) == 3);
    assert(key_pos(base, "normal"@, 2) == 3);
    assert(key_pos(base, "normal"@, 1) == 3);
    assert(key_pos(base, "normal"@, 0) == 3);
    let (ts, rend) = choose|ts: Seq<TargetFormat>, rend: Renderings|
        #![trigger with_targets(base, ts, rend, true)]
        renderings_of(w, rend) && resolved_targets(req, ts) && r == with_targets(base, ts, rend, true);
    lemma_targets_keep_base(base, ts, rend, "normal"@);
    lemma_targets_keep_base(base, ts, rend, "Format"@);
}

/// Truncation comes before everything else: converting with a byte limit
/// below the input's length works on the same text as converting the prefix
/// of that length with no limit, and so allows exactly the same results.
pub proof fn lemma_truncation_first(
    input: Seq<u8>,
    n: usize,
    r: Seq<Entry>,
    req: Option<Seq<Seq<char>>>,
)
    requires
        n < input.len(),
    ensures
        cleaned_text(input, Some(n)) == cleaned_text(input.subrange(0, n as int), None),
        converted(r, cleaned_text(input, Some(n)), req) == converted(
            r,
            cleaned_text(input.subrange(0, n as int), None),
            req,
        ),
{
}

} // verus!
