//! Presets: their settings that hold no measurement, their defaults, where
//! preset files are looked for, how a preset file's TOML table is completed
//! before it is read, and the listing of the presets that can be found.
use vstd::prelude::*;
use crate::paths::{extension, file_stem, join_path, path_extension, path_join, path_stem, probed};
use crate::text::{
    chars_of, extend, flat_map, join, join_with, lemma_lex_irreflexive, lemma_lex_total,
    lemma_lex_transitive, lex_less, lex_less_than, opt_view, owned, string_of, string_views, views,
};

verus! {

// ── Settings ─────────────────────────────────────────────────────────────────

/// A preset's identity.
#[derive(Debug, Clone)]
pub struct Meta {
    pub name: String,
    pub description: String,
    pub author: String,
    pub notes: String,
}

/// The file the master is written to.
#[derive(Debug, Clone)]
pub struct OutputConfig {
    /// `wav`, `flac`, `mp3` or `aac`; anything else is written as WAV.
    pub format: String,
    /// 16, 24 or 32 (32-bit float) for WAV; anything else is written as 24-bit.
    pub bit_depth: u32,
    pub sample_rate: u32,
}

/// Which images are drawn, and their size in pixels.
#[derive(Debug, Clone)]
pub struct VisualizationConfig {
    pub enabled: bool,
    pub spectrogram: bool,
    pub waveform: bool,
    pub width: u32,
    pub spectrogram_height: u32,
    pub waveform_height: u32,
}

/// Compression is off unless a preset turns it on.
pub fn d_comp_on() -> (r: bool)
    ensures
        r == false,
{
    false
}

/// The limiter is on unless a preset turns it off.
pub fn d_lim_on() -> (r: bool)
    ensures
        r == true,
{
    true
}

/// The output format unless a preset names one: WAV.
pub fn d_fmt() -> (r: String)
    ensures
        r@ == "wav"@,
{
    owned("wav")
}

/// The bit depth unless a preset names one: 24.
pub fn d_bits() -> (r: u32)
    ensures
        r == 24,
{
    24
}

/// The sample rate unless a preset names one: 44.1 kHz.
pub fn d_sr() -> (r: u32)
    ensures
        r == 44100,
{
    44100
}

/// Pictures are drawn unless a preset turns them off.
pub fn d_viz_on() -> (r: bool)
    ensures
        r == true,
{
    true
}

/// The spectrogram is drawn unless a preset turns it off.
pub fn d_viz_spec() -> (r: bool)
    ensures
        r == true,
{
    true
}

/// The waveform is drawn unless a preset turns it off.
pub fn d_viz_wave() -> (r: bool)
    ensures
        r == true,
{
    true
}

/// The width of every picture unless a preset names one.
pub fn d_viz_w() -> (r: u32)
    ensures
        r == 1920,
{
    1920
}

/// The spectrogram height unless a preset names one.
pub fn d_viz_sh() -> (r: u32)
    ensures
        r == 512,
{
    512
}

/// The waveform height unless a preset names one.
pub fn d_viz_wh() -> (r: u32)
    ensures
        r == 200,
{
    200
}

impl Default for OutputConfig {
    fn default() -> (r: Self)
        ensures
            r.format@ == "wav"@,
            r.bit_depth == 24,
            r.sample_rate == 44100,
    {
        OutputConfig { format: d_fmt(), bit_depth: d_bits(), sample_rate: d_sr() }
    }
}

impl Default for VisualizationConfig {
    fn default() -> (r: Self)
        ensures
            r.enabled && r.spectrogram && r.waveform,
            r.width == 1920,
            r.spectrogram_height == 512,
            r.waveform_height == 200,
    {
        VisualizationConfig {
            enabled: d_viz_on(),
            spectrogram: d_viz_spec(),
            waveform: d_viz_wave(),
            width: d_viz_w(),
            spectrogram_height: d_viz_sh(),
            waveform_height: d_viz_wh(),
        }
    }
}

/// The identity of the built-in `default` preset.
pub fn default_meta() -> (r: Meta)
    ensures
        r.name@ == "default"@,
        r.description@ == "General purpose — experimental electronic / abstract"@,
        r.author@ == Seq::<char>::empty(),
        r.notes@ == Seq::<char>::empty(),
{
    Meta {
        name: owned("default"),
        description: owned("General purpose — experimental electronic / abstract"),
        author: String::new(),
        notes: String::new(),
    }
}


// ── The preset file's table ──────────────────────────────────────────────────

/// The `toml` crate's map type, opaque to proofs; `toml::Table` is this map
/// from `String` to `toml::Value`.
#[verifier::external_type_specification]
#[verifier::external_body]
#[verifier::reject_recursive_types(K)]
#[verifier::reject_recursive_types(V)]
pub struct ExTomlMap<K, V>(toml::map::Map<K, V>);

/// A value of a TOML document, opaque to proofs.
#[verifier::external_type_specification]
#[verifier::external_body]
pub struct ExTomlValue(toml::Value);

/// Why the `toml` crate could not parse a document, opaque to proofs.
#[verifier::external_type_specification]
#[verifier::external_body]
pub struct ExTomlDeError(toml::de::Error);

/// The top-level keys of a TOML document, when it parses as a table, and the
/// keys among them whose value is an empty table.
pub uninterp spec fn toml_document_sections(text: Seq<char>) -> Option<(Set<Seq<char>>, Set<Seq<char>>)>;

/// The keys a TOML table holds.
pub uninterp spec fn table_keys(t: toml::Table) -> Set<Seq<char>>;

/// The keys under which a TOML table holds an empty table.
pub uninterp spec fn table_empty_tables(t: toml::Table) -> Set<Seq<char>>;

/// `toml::from_str::<toml::Table>`: parses a TOML document. The contract
/// claims that it succeeds exactly on the documents for which
/// `toml_document_sections` is defined, and that the table then holds that
/// document's top-level keys, with an empty table under exactly the keys
/// whose value in the document is an empty table; the other values are not
/// described.
#[verifier::external_body]
fn parse_table(text: &str) -> (r: Result<toml::Table, toml::de::Error>)
    ensures
        (r is Ok) == (toml_document_sections(text@) is Some),
        r matches Ok(t) ==> toml_document_sections(text@) == Some(
            (table_keys(t), table_empty_tables(t)),
        ),
{
    toml::from_str::<toml::Table>(text)
}

/// `toml::de::Error`'s `Display` text; nothing is claimed of it.
#[verifier::external_body]
fn toml_error_text(e: &toml::de::Error) -> String {
    e.to_string()
}

/// `toml::Table::contains_key`: whether the table holds `key`.
#[verifier::external_body]
fn table_has_key(t: &toml::Table, key: &str) -> (r: bool)
    ensures
        r == table_keys(*t).contains(key@),
{
    t.contains_key(key)
}

/// `toml::Table::insert` of a new empty table under `key`. The contract claims
/// that `key` is then held besides the keys held before, and that the keys
/// holding an empty table are those that did before and `key`; the values of
/// the other keys are not otherwise described.
#[verifier::external_body]
fn table_insert_empty(t: &mut toml::Table, key: String)
    ensures
        table_keys(*final(t)) == table_keys(*old(t)).insert(key@),
        table_empty_tables(*final(t)) == table_empty_tables(*old(t)).insert(key@),
{
    t.insert(key, toml::Value::Table(toml::Table::new()));
}

/// The sections of a preset that have defaults for every field and may be
/// left out of a preset file.
pub open spec fn optional_sections() -> Set<Seq<char>> {
    set!["filters"@, "compressor"@, "limiter"@, "output"@, "visualization"@]
}

/// A preset file that is not TOML.
#[derive(Debug, Clone)]
pub struct PresetSyntaxError {
    pub detail: String,
}

/// Adds an empty table under `key` unless the table already holds `key`, in
/// which case it is left as it is.
fn ensure_section(t: &mut toml::Table, key: &str)
    ensures
        table_keys(*final(t)) == table_keys(*old(t)).insert(key@),
        table_keys(*old(t)).contains(key@) ==> *final(t) == *old(t),
        !table_keys(*old(t)).contains(key@) ==> table_empty_tables(*final(t))
            == table_empty_tables(*old(t)).insert(key@),
{
    if !table_has_key(t, key) {
        table_insert_empty(t, owned(key));
    } else {
        assert(table_keys(*t).insert(key@) =~= table_keys(*t));
    }
}

/// Parses a preset file into a TOML table and adds an empty table for each
/// optional section it leaves out, so that the section's field defaults apply
/// when the table is read as a preset. A section the file has is kept as it
/// is.
pub fn preset_table(text: &str) -> (r: Result<toml::Table, PresetSyntaxError>)
    ensures
        (r is Ok) == (toml_document_sections(text@) is Some),
        r matches Ok(t) ==> toml_document_sections(text@) matches Some(d) && table_keys(t)
            == d.0.union(optional_sections()) && table_empty_tables(t) == d.1.union(
            optional_sections().difference(d.0),
        ),
{
    let mut t = match parse_table(text) {
        Ok(t) => t,
        Err(e) => return Err(PresetSyntaxError { detail: toml_error_text(&e) }),
    };
    let ghost k0 = table_keys(t);
    let ghost e0 = table_empty_tables(t);
    ensure_section(&mut t, "filters");
    ensure_section(&mut t, "compressor");
    ensure_section(&mut t, "limiter");
    ensure_section(&mut t, "output");
    ensure_section(&mut t, "visualization");
    proof {
        reveal_strlit("filters");
        reveal_strlit("compressor");
        reveal_strlit("limiter");
        reveal_strlit("output");
        reveal_strlit("visualization");
    }
    assert(table_keys(t) =~= k0.union(optional_sections()));
    assert(table_empty_tables(t) =~= e0.union(optional_sections().difference(k0)));
    Ok(t)
}

// ── Where presets are looked for ─────────────────────────────────────────────

/// The directories searched for preset files, in order: `presets` under the
/// working directory, `presets` beside the executable, and
/// `mastercraft/presets` under the user's configuration directory (the last two
/// when those directories are known).
pub open spec fn search_dirs(exe_dir: Option<Seq<char>>, config_dir: Option<Seq<char>>) -> Seq<
    Seq<char>,
> {
    let first = seq!["presets"@];
    let with_exe = match exe_dir {
        Some(d) => first.push(path_join(d, "presets"@)),
        None => first,
    };
    match config_dir {
        Some(c) => with_exe.push(path_join(path_join(c, "mastercraft"@), "presets"@)),
        None => with_exe,
    }
}

/// The preset search directories, given the directory holding the executable
/// and the user's configuration directory where they are known.
pub fn preset_search_dirs(exe_dir: Option<String>, config_dir: Option<String>) -> (r: Vec<String>)
    ensures
        string_views(r@) == search_dirs(opt_view(exe_dir), opt_view(config_dir)),
{
    let mut dirs: Vec<String> = Vec::new();
    dirs.push(owned("presets"));
    let ghost first = string_views(dirs@);
    assert(first =~= seq!["presets"@]);
    match &exe_dir {
        Some(d) => {
            let p = join_path(d.as_str(), "presets");
            dirs.push(p);
            assert(string_views(dirs@) =~= first.push(p@));
        },
        None => {},
    }
    let ghost second = string_views(dirs@);
    match &config_dir {
        Some(c) => {
            let app = join_path(c.as_str(), "mastercraft");
            let p = join_path(app.as_str(), "presets");
            dirs.push(p);
            assert(string_views(dirs@) =~= second.push(p@));
        },
        None => {},
    }
    dirs
}

/// `<name>.toml`.
pub fn preset_file_name(name: &str) -> (r: String)
    ensures
        r@ == name@ + ".toml"@,
{
    let mut v = chars_of(name);
    extend(&mut v, &chars_of(".toml"));
    string_of(&v)
}

/// Where a preset comes from.
#[derive(Debug, Clone)]
pub enum PresetLocation {
    /// A preset file at this path.
    File(String),
    /// The built-in default preset.
    BuiltIn,
}

/// No preset of the requested name exists.
#[derive(Debug, Clone)]
pub struct PresetNotFound {
    pub message: String,
}

/// The path where the preset file would be in `dir`.
pub open spec fn candidate_path(dir: Seq<char>, name: Seq<char>) -> Seq<char> {
    path_join(dir, name + ".toml"@)
}

/// The report that a preset is nowhere to be found.
pub open spec fn not_found_message(name: Seq<char>, dirs: Seq<Seq<char>>) -> Seq<char> {
    "Preset '"@ + name + "' not found.\nSearched: "@ + join(dirs, ", "@)
        + "\nRun `mastacraf presets` to list available presets."@
}

/// What looking up the preset `name` in the directories `dirs` may give,
/// where `is_file` answers whether a path holds a file: the candidate path in
/// the first directory for which it answered yes, with a no for every earlier
/// directory; else, with a no for every directory, the built-in preset when
/// `name` is `default`, or the not-found report naming the directories.
pub open spec fn located<X: Fn(&String) -> bool>(
    name: Seq<char>,
    dirs: Seq<Seq<char>>,
    is_file: X,
    r: Result<PresetLocation, PresetNotFound>,
) -> bool {
    match r {
        Ok(PresetLocation::File(p)) => exists|i: int|
            0 <= i < dirs.len() && p@ == candidate_path(dirs[i], name) && probed(is_file, p@, true)
                && forall|j: int|
                0 <= j < i ==> probed(is_file, candidate_path(#[trigger] dirs[j], name), false),
        Ok(PresetLocation::BuiltIn) => name == "default"@ && forall|j: int|
            0 <= j < dirs.len() ==> probed(is_file, candidate_path(#[trigger] dirs[j], name), false),
        Err(e) => name != "default"@ && e.message@ == not_found_message(name, dirs) && forall|j: int|
            0 <= j < dirs.len() ==> probed(is_file, candidate_path(#[trigger] dirs[j], name), false),
    }
}

/// Decides where the preset `name` comes from: the first search directory
/// that holds `<name>.toml` (as `is_file` reports it), else the built-in
/// preset when `name` is `default`, else an error naming the directories
/// searched.
pub fn locate_preset<X: Fn(&String) -> bool>(name: &str, dirs: &Vec<String>, is_file: &X) -> (r:
    Result<PresetLocation, PresetNotFound>)
    requires
        forall|p: &String| is_file.requires((p,)),
    ensures
        located(name@, string_views(dirs@), *is_file, r),
{
    let file = preset_file_name(name);
    let ghost dv = string_views(dirs@);
    for i in 0..dirs.len()
        invariant
            file@ == name@ + ".toml"@,
            dv == string_views(dirs@),
            forall|p: &String| is_file.requires((p,)),
            forall|j: int|
                0 <= j < i ==> probed(*is_file, candidate_path(#[trigger] dv[j], name@), false),
    {
        let path = join_path(dirs[i].as_str(), file.as_str());
        assert(dv[i as int] == dirs@[i as int]@);
        let found = is_file(&path);
        if found {
            assert(probed(*is_file, path@, true));
            return Ok(PresetLocation::File(path));
        }
        assert(probed(*is_file, candidate_path(dv[i as int], name@), false));
    }
    if same_str(name, "default") {
        return Ok(PresetLocation::BuiltIn);
    }
    let mut msg = chars_of("Preset '");
    extend(&mut msg, &chars_of(name));
    extend(&mut msg, &chars_of("' not found.\nSearched: "));
    let mut dir_chars: Vec<Vec<char>> = Vec::new();
    for i in 0..dirs.len()
        invariant
            views(dir_chars@) == string_views(dirs@).take(i as int),
    {
        let ghost before = views(dir_chars@);
        dir_chars.push(chars_of(dirs[i].as_str()));
        assert(views(dir_chars@) =~= before.push(dirs@[i as int]@));
        assert(string_views(dirs@).take(i + 1) =~= string_views(dirs@).take(i as int).push(
            dirs@[i as int]@,
        ));
    }
    assert(string_views(dirs@).take(dirs.len() as int) =~= string_views(dirs@));
    extend(&mut msg, &join_with(&dir_chars, &chars_of(", ")));
    extend(&mut msg, &chars_of("\nRun `mastacraf presets` to list available presets."));
    Err(PresetNotFound { message: string_of(&msg) })
}

/// Whether two strings are equal.
pub fn same_str(a: &str, b: &str) -> (r: bool)
    ensures
        r == (a@ == b@),
{
    crate::text::same(&chars_of(a), &chars_of(b))
}

} // verus!

verus! {

// ── Listing the presets ──────────────────────────────────────────────────────

/// The preset a directory entry names: its stem and path when its extension
/// is `toml`.
pub open spec fn toml_entry(dir: Seq<char>, name: Seq<char>) -> Seq<(Seq<char>, Seq<char>)> {
    let path = path_join(dir, name);
    if extension(path) == Some("toml"@) {
        match file_stem(path) {
            Some(stem) => seq![(stem, path)],
            None => Seq::empty(),
        }
    } else {
        Seq::empty()
    }
}

/// `toml_entry` for the directory `dir`, as a function of the entry name.
pub open spec fn toml_entry_fn(dir: Seq<char>) -> spec_fn(Seq<char>) -> Seq<(Seq<char>, Seq<char>)> {
    |n: Seq<char>| toml_entry(dir, n)
}

/// The presets of one directory's entries, in the order of the entries.
pub open spec fn dir_entries(dir: Seq<char>, names: Seq<Seq<char>>) -> Seq<(Seq<char>, Seq<char>)> {
    flat_map(names, toml_entry_fn(dir))
}

/// `dir_entries` as a function of a (directory, entry names) pair.
pub open spec fn dir_entries_fn() -> spec_fn((Seq<char>, Seq<Seq<char>>)) -> Seq<(Seq<char>, Seq<char>)> {
    |e: (Seq<char>, Seq<Seq<char>>)| dir_entries(e.0, e.1)
}

/// The presets of all directories, in search order.
pub open spec fn listing_entries(listing: Seq<(Seq<char>, Seq<Seq<char>>)>) -> Seq<(Seq<char>, Seq<char>)> {
    flat_map(listing, dir_entries_fn())
}

/// The names of (name, path) entries, in order.
pub open spec fn names_of(s: Seq<(Seq<char>, Seq<char>)>) -> Seq<Seq<char>> {
    s.map_values(|e: (Seq<char>, Seq<char>)| e.0)
}

/// The entries whose name has not occurred before: the first path found for
/// each name.
pub open spec fn first_by_name(s: Seq<(Seq<char>, Seq<char>)>) -> Seq<(Seq<char>, Seq<char>)>
    decreases s.len(),
{
    if s.len() == 0 {
        Seq::empty()
    } else {
        let d = first_by_name(s.drop_last());
        if names_of(d).contains(s.last().0) {
            d
        } else {
            d.push(s.last())
        }
    }
}

/// A directory listing (each directory with its entry names) as text.
pub open spec fn listing_view(l: Seq<(String, Vec<String>)>) -> Seq<(Seq<char>, Seq<Seq<char>>)> {
    l.map_values(|e: (String, Vec<String>)| (e.0@, string_views(e.1@)))
}

/// (name, path) pairs as text.
pub open spec fn pairs_view(v: Seq<(String, String)>) -> Seq<(Seq<char>, Seq<char>)> {
    v.map_values(|e: (String, String)| (e.0@, e.1@))
}

/// Strictly ascending by name.
pub open spec fn sorted_by_name(s: Seq<(Seq<char>, Seq<char>)>) -> bool {
    forall|i: int, j: int| 0 <= i < j < s.len() ==> lex_less(#[trigger] s[i].0, #[trigger] s[j].0)
}

/// Keeping the first entry of each name leaves no name twice.
pub proof fn lemma_first_by_name_distinct(s: Seq<(Seq<char>, Seq<char>)>)
    ensures
        names_of(first_by_name(s)).no_duplicates(),
    decreases s.len(),
{
    if s.len() > 0 {
        lemma_first_by_name_distinct(s.drop_last());
        let d = first_by_name(s.drop_last());
        if !names_of(d).contains(s.last().0) {
            assert(names_of(d.push(s.last())) =~= names_of(d).push(s.last().0));
        }
    }
}

/// The stem and path of a directory entry that is a preset file.
fn toml_entry_exec(dir: &str, name: &str) -> (r: Option<(String, String)>)
    ensures
        match r {
            Some(e) => toml_entry(dir@, name@) == seq![(e.0@, e.1@)],
            None => toml_entry(dir@, name@) == Seq::<(Seq<char>, Seq<char>)>::empty(),
        },
{
    let path = join_path(dir, name);
    match path_extension(path.as_str()) {
        Some(ext) => {
            if !same_str(ext.as_str(), "toml") {
                return None;
            }
        },
        None => return None,
    }
    match path_stem(path.as_str()) {
        Some(stem) => Some((stem, path)),
        None => None,
    }
}

/// The presets found in a listing of the search directories: each directory
/// with the names of its entries, in search order. A file `<name>.toml`
/// makes a preset `<name>`; where several directories hold the same name,
/// the first in search order is kept. The result is sorted by name.
pub fn list_presets(listing: &Vec<(String, Vec<String>)>) -> (r: Vec<(String, String)>)
    ensures
        sorted_by_name(pairs_view(r@)),
        pairs_view(r@).to_multiset() == first_by_name(listing_entries(listing_view(listing@))).to_multiset(),
{
    let ghost lv = listing_view(listing@);
    let mut uniq: Vec<(String, String)> = Vec::new();
    let ghost mut seen: Seq<(Seq<char>, Seq<char>)> = Seq::empty();
    for d in 0..listing.len()
        invariant
            lv == listing_view(listing@),
            lv.len() == listing.len(),
            seen == listing_entries(lv.take(d as int)),
            pairs_view(uniq@) == first_by_name(seen),
    {
        let dir = &listing[d].0;
        let names = &listing[d].1;
        let ghost dv = dir@;
        let ghost nv = string_views(names@);
        assert(lv[d as int] == (dv, nv));
        let ghost base = seen;
        for j in 0..names.len()
            invariant
                nv == string_views(names@),
                nv.len() == names.len(),
                dv == dir@,
                seen == base + dir_entries(dv, nv.take(j as int)),
                pairs_view(uniq@) == first_by_name(seen),
        {
            let ghost before = seen;
            assert(nv.take(j + 1).drop_last() =~= nv.take(j as int));
            assert(nv.take(j + 1).last() == names@[j as int]@);
            let ghost add = toml_entry(dv, nv[j as int]);
            assert(dir_entries(dv, nv.take(j + 1)) == dir_entries(dv, nv.take(j as int)) + add);
            match toml_entry_exec(dir.as_str(), names[j].as_str()) {
                Some(e) => {
                    proof {
                        seen = before.push((e.0@, e.1@));
                        assert(seen =~= base + dir_entries(dv, nv.take(j + 1)));
                        assert(seen.drop_last() =~= before);
                    }
                    let mut present = false;
                    let mut k: usize = 0;
                    while k < uniq.len()
                        invariant
                            0 <= k <= uniq.len(),
                            present == exists|m: int| 0 <= m < k && #[trigger] uniq@[m].0@ == e.0@,
                        decreases uniq.len() - k,
                    {
                        if same_str(uniq[k].0.as_str(), e.0.as_str()) {
                            present = true;
                        }
                        k = k + 1;
                    }
                    proof {
                        let nms = names_of(pairs_view(uniq@));
                        if present {
                            let m = choose|m: int| 0 <= m < uniq.len() && #[trigger] uniq@[m].0@ == e.0@;
                            assert(nms[m] == e.0@);
                        } else {
                            assert forall|m: int| 0 <= m < nms.len() implies nms[m] != e.0@ by {
                                assert(nms[m] == uniq@[m].0@);
                            }
                        }
                    }
                    if !present {
                        let ghost pv = pairs_view(uniq@);
                        uniq.push(e);
                        assert(pairs_view(uniq@) =~= pv.push((e.0@, e.1@)));
                    }
                },
                None => {
                    assert(add =~= Seq::<(Seq<char>, Seq<char>)>::empty());
                    assert(seen =~= base + dir_entries(dv, nv.take(j + 1)));
                },
            }
        }
        proof {
            assert(nv.take(names.len() as int) =~= nv);
            assert(lv.take(d + 1).drop_last() =~= lv.take(d as int));
            assert(lv.take(d + 1).last() == (dv, nv));
        }
    }
    assert(lv.take(listing.len() as int) =~= lv);
    let ghost u = pairs_view(uniq@);
    proof {
        lemma_first_by_name_distinct(seen);
    }
    sort_by_name(uniq)
}

/// The entries in ascending order of their names, which must be distinct.
fn sort_by_name(v: Vec<(String, String)>) -> (r: Vec<(String, String)>)
    requires
        names_of(pairs_view(v@)).no_duplicates(),
    ensures
        sorted_by_name(pairs_view(r@)),
        pairs_view(r@).to_multiset() == pairs_view(v@).to_multiset(),
{
    broadcast use vstd::seq_lib::group_to_multiset_ensures;

    let ghost vv = pairs_view(v@);
    let mut r: Vec<(String, String)> = Vec::new();
    for k in 0..v.len()
        invariant
            vv == pairs_view(v@),
            vv.len() == v.len(),
            names_of(vv).no_duplicates(),
            sorted_by_name(pairs_view(r@)),
            pairs_view(r@).to_multiset() == vv.take(k as int).to_multiset(),
    {
        let e = (v[k].0.clone(), v[k].1.clone());
        let ghost ev = vv[k as int];
        assert(ev == (e.0@, e.1@));
        let ghost rv = pairs_view(r@);
        let key = chars_of(e.0.as_str());
        let mut pos: usize = 0;
        while pos < r.len() && lex_less_than(&chars_of(r[pos].0.as_str()), &key)
            invariant
                0 <= pos <= r.len(),
                rv == pairs_view(r@),
                key@ == ev.0,
                forall|i: int| 0 <= i < pos ==> lex_less(#[trigger] rv[i].0, ev.0),
            decreases r.len() - pos,
        {
            pos = pos + 1;
        }
        proof {
            assert(vv.take(k + 1) =~= vv.take(k as int).push(ev));
            // The name of `e` occurs nowhere in `r`.
            assert forall|i: int| 0 <= i < rv.len() implies rv[i].0 != ev.0 by {
                rv.to_multiset_ensures();
                vv.take(k as int).to_multiset_ensures();
                assert(rv[i] == rv[i]);
                assert(rv.contains(rv[i]));
                assert(rv.to_multiset().count(rv[i]) > 0);
                assert(vv.take(k as int).to_multiset().count(rv[i]) > 0);
                assert(vv.take(k as int).contains(rv[i]));
                let m = choose|m: int| 0 <= m < k && vv.take(k as int)[m] == rv[i];
                assert(names_of(vv)[m] == rv[i].0);
                assert(names_of(vv)[k as int] == ev.0);
            }
            if pos < rv.len() {
                lemma_lex_total(rv[pos as int].0, ev.0);
            }
            assert forall|j: int| pos <= j < rv.len() implies lex_less(ev.0, #[trigger] rv[j].0) by {
                lemma_lex_total(rv[pos as int].0, ev.0);
                if j > pos {
                    lemma_lex_transitive(ev.0, rv[pos as int].0, rv[j].0);
                }
            }
        }
        r.insert(pos, e);
        proof {
            let nv = pairs_view(r@);
            assert(nv =~= rv.insert(pos as int, ev));
            rv.insert_ensures(pos as int, ev);
            assert forall|i: int, j: int| 0 <= i < j < nv.len() implies lex_less(#[trigger] nv[i].0, #[trigger] nv[j].0) by {
                if j < pos {
                    assert(nv[i] == rv[i] && nv[j] == rv[j]);
                } else if j == pos {
                    assert(nv[i] == rv[i]);
                } else if i < pos {
                    assert(nv[i] == rv[i] && nv[j] == rv[j - 1]);
                    lemma_lex_transitive(rv[i].0, ev.0, rv[j - 1].0);
                } else if i == pos {
                    assert(nv[j] == rv[j - 1]);
                } else {
                    assert(nv[i] == rv[i - 1] && nv[j] == rv[j - 1]);
                }
            }
            assert(nv.remove(pos as int) =~= rv);
            nv.to_multiset_ensures();
            assert(nv[pos as int] == ev);
            assert(nv.remove(pos as int).to_multiset() =~= nv.to_multiset().remove(ev));
            assert(nv.contains(ev));
            assert(nv.to_multiset().count(ev) > 0);
            assert(nv.to_multiset().remove(ev) =~= rv.to_multiset());
            assert(nv.to_multiset() =~= rv.to_multiset().insert(ev));
            vv.take(k as int).to_multiset_ensures();
            assert(vv.take(k as int).push(ev).to_multiset() =~= vv.take(k as int).to_multiset().insert(ev));
            assert(pairs_view(r@).to_multiset() =~= vv.take(k + 1).to_multiset());
        }
    }
    assert(vv.take(v.len() as int) =~= vv);
    r
}

} // verus!

verus! {

/// No preset name is listed twice: a listing sorted strictly by name holds
/// each name once.
pub proof fn law_listed_names_distinct(s: Seq<(Seq<char>, Seq<char>)>)
    requires
        sorted_by_name(s),
    ensures
        names_of(s).no_duplicates(),
{
    assert forall|i: int, j: int|
        0 <= i < names_of(s).len() && 0 <= j < names_of(s).len() && i != j implies names_of(s)[i]
        != names_of(s)[j] by {
        if i < j {
            assert(lex_less(s[i].0, s[j].0));
        } else {
            assert(lex_less(s[j].0, s[i].0));
        }
        lemma_lex_irreflexive(s[i].0);
    }
}

/// A preset that the listing shows under a name is the file that looking the
/// name up probes in that directory: the entry `<name>.toml` of directory
/// `dir` is listed as `<name>` at `candidate_path(dir, <name>)`.
pub proof fn law_listed_preset_is_found_by_name(dir: Seq<char>, name: Seq<char>)
    requires
        crate::paths::plain_name(name),
        toml_entry(dir, name).len() == 1,
    ensures
        toml_entry(dir, name)[0].1 == candidate_path(dir, toml_entry(dir, name)[0].0),
        name == toml_entry(dir, name)[0].0 + ".toml"@,
        toml_entry(dir, name)[0].0.len() > 0,
{
    crate::paths::lemma_file_name_of_join(dir, name);
    crate::text::lemma_last_index_of_bound(name, '.');
    let path = path_join(dir, name);
    let i = crate::text::last_index_of(name, '.')->0;
    let stem = name.take(i);
    reveal_strlit("toml");
    reveal_strlit(".toml");
    assert(name.skip(i + 1) == "toml"@);
    assert(name =~= stem + ".toml"@) by {
        assert(name =~= name.take(i) + seq![name[i]] + name.skip(i + 1));
    }
}

/// A file `<stem>.toml`, with a stem that is not empty, is listed as the
/// preset `<stem>` at its candidate path.
proof fn lemma_toml_entry_of_stem(dir: Seq<char>, stem: Seq<char>)
    requires
        crate::paths::plain_name(stem + ".toml"@),
        stem.len() > 0,
    ensures
        toml_entry(dir, stem + ".toml"@) == seq![(stem, candidate_path(dir, stem))],
{
    let e = stem + ".toml"@;
    reveal_strlit(".toml");
    reveal_strlit("toml");
    crate::paths::lemma_file_name_of_join(dir, e);
    let n = stem.len() as int;
    assert(e[n] == '.');
    assert forall|k: int| n + 1 <= k < e.len() implies #[trigger] e[k] != '.' by {}
    crate::text::lemma_last_index_of(e, '.', n + 1);
    assert(e.take(n) =~= stem);
    assert(e.skip(n + 1) =~= "toml"@);
}

/// Every element of one of the parts is in the concatenation.
proof fn lemma_flat_map_has<A, B>(s: Seq<A>, f: spec_fn(A) -> Seq<B>, j: int, x: B)
    requires
        0 <= j < s.len(),
        f(s[j]).contains(x),
    ensures
        flat_map(s, f).contains(x),
    decreases s.len(),
{
    let m = choose|m: int| 0 <= m < f(s[j]).len() && #[trigger] f(s[j])[m] == x;
    let a = flat_map(s.drop_last(), f);
    if j == s.len() - 1 {
        assert((a + f(s.last()))[a.len() + m] == x);
    } else {
        assert(s.drop_last()[j] == s[j]);
        lemma_flat_map_has(s.drop_last(), f, j, x);
        let k = choose|k: int| 0 <= k < a.len() && #[trigger] a[k] == x;
        assert((a + f(s.last()))[k] == x);
    }
}

/// Every element of the concatenation comes from one of the parts.
proof fn lemma_flat_map_from<A, B>(s: Seq<A>, f: spec_fn(A) -> Seq<B>, x: B) -> (j: int)
    requires
        flat_map(s, f).contains(x),
    ensures
        0 <= j < s.len(),
        f(s[j]).contains(x),
    decreases s.len(),
{
    let a = flat_map(s.drop_last(), f);
    let b = f(s.last());
    let k = choose|k: int| 0 <= k < (a + b).len() && #[trigger] (a + b)[k] == x;
    if k < a.len() {
        assert(a[k] == x);
        let j = lemma_flat_map_from(s.drop_last(), f, x);
        assert(s.drop_last()[j] == s[j]);
        j
    } else {
        assert(b[k - a.len()] == x);
        s.len() - 1
    }
}

/// Every name in the entries is the name of a kept entry.
proof fn lemma_first_by_name_keeps_names(s: Seq<(Seq<char>, Seq<char>)>, k: int)
    requires
        0 <= k < s.len(),
    ensures
        names_of(first_by_name(s)).contains(s[k].0),
    decreases s.len(),
{
    let t = s.drop_last();
    let d = first_by_name(t);
    if k < s.len() - 1 {
        assert(t[k] == s[k]);
        lemma_first_by_name_keeps_names(t, k);
        let m = choose|m: int| 0 <= m < names_of(d).len() && #[trigger] names_of(d)[m] == s[k].0;
        if !names_of(d).contains(s.last().0) {
            assert(names_of(d.push(s.last()))[m] == s[k].0);
        }
    } else if !names_of(d).contains(s.last().0) {
        assert(names_of(d.push(s.last()))[d.len() as int] == s[k].0);
    }
}

/// A kept entry stands in the entries at a position before which its name
/// does not occur.
proof fn lemma_first_by_name_first(s: Seq<(Seq<char>, Seq<char>)>, x: (Seq<char>, Seq<char>)) -> (k: int)
    requires
        first_by_name(s).contains(x),
    ensures
        0 <= k < s.len(),
        s[k] == x,
        forall|i: int| 0 <= i < k ==> #[trigger] s[i].0 != x.0,
    decreases s.len(),
{
    let t = s.drop_last();
    let d = first_by_name(t);
    if d.contains(x) {
        let k = lemma_first_by_name_first(t, x);
        assert forall|i: int| 0 <= i < k implies #[trigger] s[i].0 != x.0 by {
            assert(s[i] == t[i]);
        }
        k
    } else {
        let q = choose|q: int| 0 <= q < first_by_name(s).len() && #[trigger] first_by_name(s)[q] == x;
        assert(!names_of(d).contains(s.last().0));
        assert(first_by_name(s) == d.push(s.last()));
        assert(q == d.len());
        assert forall|i: int| 0 <= i < s.len() - 1 implies #[trigger] s[i].0 != x.0 by {
            assert(s[i] == t[i]);
            lemma_first_by_name_keeps_names(t, i);
        }
        s.len() - 1
    }
}

/// Where the entries of a listing first name `name`: the directory whose
/// entry `<name>.toml` gave `path`, and no earlier directory has that entry.
proof fn lemma_first_listed_dir(
    listing: Seq<(Seq<char>, Seq<Seq<char>>)>,
    name: Seq<char>,
    path: Seq<char>,
    k: int,
) -> (i: int)
    requires
        forall|j: int, m: int|
            0 <= j < listing.len() && 0 <= m < listing[j].1.len() ==> crate::paths::plain_name(
                #[trigger] listing[j].1[m],
            ),
        0 <= k < listing_entries(listing).len(),
        listing_entries(listing)[k] == (name, path),
        forall|q: int| 0 <= q < k ==> #[trigger] listing_entries(listing)[q].0 != name,
    ensures
        0 <= i < listing.len(),
        path == candidate_path(listing[i].0, name),
        listing[i].1.contains(name + ".toml"@),
        forall|j: int| 0 <= j < i ==> !(#[trigger] listing[j].1).contains(name + ".toml"@),
    decreases listing.len(),
{
    let l = listing.drop_last();
    let a = listing_entries(l);
    let last = listing.last();
    let b = dir_entries(last.0, last.1);
    assert(listing_entries(listing) == a + b);
    assert forall|j: int, m: int|
        0 <= j < l.len() && 0 <= m < l[j].1.len() implies crate::paths::plain_name(
        #[trigger] l[j].1[m],
    ) by {
        assert(l[j] == listing[j]);
    }
    if k < a.len() {
        assert forall|q: int| 0 <= q < k implies #[trigger] a[q].0 != name by {
            assert(a[q] == (a + b)[q]);
        }
        assert(a[k] == (a + b)[k]);
        let i = lemma_first_listed_dir(l, name, path, k);
        assert(l[i] == listing[i]);
        assert forall|j: int| 0 <= j < i implies !(#[trigger] listing[j].1).contains(name + ".toml"@) by {
            assert(l[j] == listing[j]);
        }
        i
    } else {
        assert(b[k - a.len()] == (name, path));
        assert(b.contains((name, path)));
        let m = lemma_flat_map_from(last.1, toml_entry_fn(last.0), (name, path));
        let e = last.1[m];
        assert(crate::paths::plain_name(listing[listing.len() - 1].1[m]));
        assert(toml_entry(last.0, e).contains((name, path)));
        law_listed_preset_is_found_by_name(last.0, e);
        assert(toml_entry(last.0, e)[0] == (name, path));
        assert(last.1[m] == name + ".toml"@);
        assert forall|j: int| 0 <= j < listing.len() - 1 implies !(#[trigger] listing[j].1).contains(
            name + ".toml"@,
        ) by {
            if listing[j].1.contains(name + ".toml"@) {
                let dj = listing[j];
                let mj = choose|mj: int| 0 <= mj < dj.1.len() && #[trigger] dj.1[mj] == name + ".toml"@;
                assert(crate::paths::plain_name(listing[j].1[mj]));
                assert(crate::paths::plain_name(name + ".toml"@));
                assert(name.len() > 0);
                lemma_toml_entry_of_stem(dj.0, name);
                let y = (name, candidate_path(dj.0, name));
                assert(toml_entry_fn(dj.0)(dj.1[mj]).contains(y)) by {
                    assert(toml_entry(dj.0, name + ".toml"@)[0] == y);
                }
                lemma_flat_map_has(dj.1, toml_entry_fn(dj.0), mj, y);
                assert(l[j] == dj);
                assert(dir_entries_fn()(l[j]).contains(y));
                lemma_flat_map_has(l, dir_entries_fn(), j, y);
                let q = choose|q: int| 0 <= q < a.len() && #[trigger] a[q] == y;
                assert((a + b)[q] == y);
                assert(listing_entries(listing)[q].0 != name);
            }
        }
        assert(listing[listing.len() - 1].1[m] == name + ".toml"@);
        listing.len() - 1
    }
}

/// The path the preset listing shows for a name is the file that looking the
/// name up finds, when the listing is what the search directories hold: if
/// each directory's entry names are plain file names, `is_file` answers yes
/// only for `<dir>/<name>.toml` when `dir` lists `<name>.toml`, and never no
/// when it does, then every result that looking up `name` in the listed
/// directories may give is the listed path.
pub proof fn law_listed_path_is_located<X: Fn(&String) -> bool>(
    listing: Seq<(Seq<char>, Seq<Seq<char>>)>,
    name: Seq<char>,
    path: Seq<char>,
    is_file: X,
    r: Result<PresetLocation, PresetNotFound>,
)
    requires
        first_by_name(listing_entries(listing)).contains((name, path)),
        forall|j: int, m: int|
            0 <= j < listing.len() && 0 <= m < listing[j].1.len() ==> crate::paths::plain_name(
                #[trigger] listing[j].1[m],
            ),
        forall|j: int|
            #![trigger listing[j]]
            0 <= j < listing.len() && probed(is_file, candidate_path(listing[j].0, name), true)
                ==> listing[j].1.contains(name + ".toml"@),
        forall|j: int|
            #![trigger listing[j]]
            0 <= j < listing.len() && listing[j].1.contains(name + ".toml"@) ==> !probed(
                is_file,
                candidate_path(listing[j].0, name),
                false,
            ),
        located(name, listing.map_values(|e: (Seq<char>, Seq<Seq<char>>)| e.0), is_file, r),
    ensures
        r matches Ok(PresetLocation::File(p)) && p@ == path,
{
    let dirs = listing.map_values(|e: (Seq<char>, Seq<Seq<char>>)| e.0);
    let k = lemma_first_by_name_first(listing_entries(listing), (name, path));
    let i0 = lemma_first_listed_dir(listing, name, path, k);
    assert(dirs[i0] == listing[i0].0);
    assert(!probed(is_file, candidate_path(dirs[i0], name), false));
    match r {
        Ok(PresetLocation::File(p)) => {
            let i = choose|i: int|
                0 <= i < dirs.len() && p@ == candidate_path(dirs[i], name) && probed(is_file, p@, true)
                    && forall|j: int|
                    0 <= j < i ==> probed(is_file, candidate_path(#[trigger] dirs[j], name), false);
            assert(dirs[i] == listing[i].0);
            if i < i0 {
                assert(listing[i].1.contains(name + ".toml"@));
            } else if i > i0 {
                assert(probed(is_file, candidate_path(dirs[i0], name), false));
            }
        },
        Ok(PresetLocation::BuiltIn) => {
            assert(probed(is_file, candidate_path(dirs[i0], name), false));
        },
        Err(_) => {
            assert(probed(is_file, candidate_path(dirs[i0], name), false));
        },
    }
}

/// The first position at or before `k0` whose entry has the name `name`.
proof fn lemma_first_with_name(s: Seq<(Seq<char>, Seq<char>)>, name: Seq<char>, k0: int) -> (k: int)
    requires
        0 <= k0 < s.len(),
        s[k0].0 == name,
    ensures
        0 <= k <= k0,
        s[k].0 == name,
        forall|q: int| 0 <= q < k ==> #[trigger] s[q].0 != name,
    decreases k0,
{
    if exists|q: int| 0 <= q < k0 && #[trigger] s[q].0 == name {
        let q = choose|q: int| 0 <= q < k0 && #[trigger] s[q].0 == name;
        lemma_first_with_name(s, name, q)
    } else {
        k0
    }
}

/// An entry whose name occurs at no earlier position is kept.
proof fn lemma_first_by_name_keeps_first(s: Seq<(Seq<char>, Seq<char>)>, k: int)
    requires
        0 <= k < s.len(),
        forall|q: int| 0 <= q < k ==> #[trigger] s[q].0 != s[k].0,
    ensures
        first_by_name(s).contains(s[k]),
    decreases s.len(),
{
    let t = s.drop_last();
    let d = first_by_name(t);
    if k < s.len() - 1 {
        assert forall|q: int| 0 <= q < k implies #[trigger] t[q].0 != t[k].0 by {
            assert(t[q] == s[q]);
        }
        lemma_first_by_name_keeps_first(t, k);
        let m = choose|m: int| 0 <= m < d.len() && #[trigger] d[m] == t[k];
        if !names_of(d).contains(s.last().0) {
            assert(d.push(s.last())[m] == s[k]);
        } else {
            assert(d[m] == s[k]);
        }
    } else {
        if names_of(d).contains(s.last().0) {
            let m = choose|m: int| 0 <= m < names_of(d).len() && #[trigger] names_of(d)[m] == s.last().0;
            assert(d.contains(d[m]));
            let q = lemma_first_by_name_first(t, d[m]);
            assert(s[q] == t[q]);
        }
        assert(d.push(s.last())[d.len() as int] == s[k]);
    }
}

/// Every preset file is listed, at the first directory holding it: when the
/// entry names are plain file names and `<name>.toml` (with `name` not empty)
/// is an entry of directory `i` and of no earlier directory, any result with
/// the entries of `list_presets` holds `name` at `<dir i>/<name>.toml`.
pub proof fn law_every_preset_file_is_listed(
    listing: Seq<(Seq<char>, Seq<Seq<char>>)>,
    name: Seq<char>,
    i: int,
    listed: Seq<(Seq<char>, Seq<char>)>,
)
    requires
        forall|j: int, m: int|
            0 <= j < listing.len() && 0 <= m < listing[j].1.len() ==> crate::paths::plain_name(
                #[trigger] listing[j].1[m],
            ),
        name.len() > 0,
        0 <= i < listing.len(),
        listing[i].1.contains(name + ".toml"@),
        forall|j: int| 0 <= j < i ==> !(#[trigger] listing[j].1).contains(name + ".toml"@),
        listed.to_multiset() == first_by_name(listing_entries(listing)).to_multiset(),
    ensures
        listed.contains((name, candidate_path(listing[i].0, name))),
{
    let s = listing_entries(listing);
    let d = listing[i];
    let x = (name, candidate_path(d.0, name));
    let mi = choose|mi: int| 0 <= mi < d.1.len() && #[trigger] d.1[mi] == name + ".toml"@;
    assert(crate::paths::plain_name(listing[i].1[mi]));
    lemma_toml_entry_of_stem(d.0, name);
    assert(toml_entry_fn(d.0)(d.1[mi]).contains(x)) by {
        assert(toml_entry(d.0, name + ".toml"@)[0] == x);
    }
    lemma_flat_map_has(d.1, toml_entry_fn(d.0), mi, x);
    assert(dir_entries_fn()(listing[i]).contains(x));
    lemma_flat_map_has(listing, dir_entries_fn(), i, x);
    let k0 = choose|k0: int| 0 <= k0 < s.len() && #[trigger] s[k0] == x;
    let k = lemma_first_with_name(s, name, k0);
    let i2 = lemma_first_listed_dir(listing, name, s[k].1, k);
    if i2 < i {
        assert(!listing[i2].1.contains(name + ".toml"@));
    } else if i < i2 {
        assert(!listing[i].1.contains(name + ".toml"@));
    }
    assert(s[k] == x);
    lemma_first_by_name_keeps_first(s, k);
    let f = first_by_name(s);
    f.to_multiset_ensures();
    listed.to_multiset_ensures();
    assert(f.to_multiset().count(x) > 0);
    assert(listed.to_multiset().count(x) > 0);
}

} // verus!
