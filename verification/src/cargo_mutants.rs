//! Reading the mutant listing that `cargo mutants --list --json --diff`
//! prints, and turning each listed diff into a mutated source file.
use vstd::prelude::*;
use crate::campaign::{format_process_output, process_output_text, FileMutant};
use crate::diff::{apply_spec, apply_unified_diff_checked};
use crate::text::{
    chars_of, chars_eq, lines, nonempty_trimmed, nonempty_trimmed_lines, push_str, string_of, trim,
    trim_chars,
};

verus! {

/// A JSON document.
#[derive(Debug)]
pub enum JsonValue {
    Null,
    Bool(bool),
    Number,
    Str(String),
    Array(Vec<JsonValue>),
    /// The members of an object, each key once, in the order the parser
    /// keeps them.
    Object(Vec<(String, JsonValue)>),
}

/// A mutant as `cargo mutants` lists it.
#[derive(Debug, Clone)]
pub struct CargoJsonMutant {
    pub name: String,
    pub diff: String,
}

/// The string value of the member `key` of an object, if it has one.
pub open spec fn member_str(members: Seq<(String, JsonValue)>, key: Seq<char>) -> Option<Seq<char>>
    decreases members.len(),
{
    if members.len() == 0 {
        None
    } else if members[0].0@ == key {
        match members[0].1 {
            JsonValue::Str(s) => Some(s@),
            _ => None,
        }
    } else {
        member_str(members.drop_first(), key)
    }
}

/// The mutant that an object describes, if it has a string `diff`: named by
/// its `name`, else its `genre`, else `cargo-mutants mutant`.
pub open spec fn own_mutant(members: Seq<(String, JsonValue)>) -> Seq<(Seq<char>, Seq<char>)> {
    match member_str(members, "diff"@) {
        None => Seq::empty(),
        Some(diff) => {
            let name = match member_str(members, "name"@) {
                Some(n) => n,
                None => match member_str(members, "genre"@) {
                    Some(g) => g,
                    None => "cargo-mutants mutant"@,
                },
            };
            seq![(name, diff)]
        },
    }
}

/// The mutants described anywhere in `v`, as (name, diff), in document order:
/// an object's own mutant before those inside its members.
pub open spec fn mutants_in(v: JsonValue) -> Seq<(Seq<char>, Seq<char>)>
    decreases v, 2nat,
{
    match v {
        JsonValue::Object(members) => own_mutant(members@) + mutants_in_members(members@),
        JsonValue::Array(items) => mutants_in_items(items@),
        _ => Seq::empty(),
    }
}

/// The mutants described in the items `items`, in order.
pub open spec fn mutants_in_items(items: Seq<JsonValue>) -> Seq<(Seq<char>, Seq<char>)>
    decreases items, 1nat,
{
    if items.len() == 0 {
        Seq::empty()
    } else {
        mutants_in_items(items.drop_last()) + mutants_in(items.last())
    }
}

/// The mutants described in the values of the members `members`, in order.
pub open spec fn mutants_in_members(members: Seq<(String, JsonValue)>) -> Seq<
    (Seq<char>, Seq<char>),
>
    decreases members, 1nat,
{
    if members.len() == 0 {
        Seq::empty()
    } else {
        mutants_in_members(members.drop_last()) + mutants_in(members.last().1)
    }
}

/// The view of a list of listed mutants.
pub open spec fn listed_view(v: Seq<CargoJsonMutant>) -> Seq<(Seq<char>, Seq<char>)> {
    v.map_values(|m: CargoJsonMutant| (m.name@, m.diff@))
}

/// The mutants described by the documents that parsed among `docs`, in order.
pub open spec fn mutants_in_docs(docs: Seq<Option<JsonValue>>) -> Seq<(Seq<char>, Seq<char>)>
    decreases docs.len(),
{
    if docs.len() == 0 {
        Seq::empty()
    } else {
        mutants_in_docs(docs.drop_last()) + match docs.last() {
            Some(v) => mutants_in(v),
            None => Seq::empty(),
        }
    }
}

/// Some of `docs` parsed.
pub open spec fn any_parsed(docs: Seq<Option<JsonValue>>) -> bool {
    exists|i: int| 0 <= i < docs.len() && docs[i] is Some
}

/// The lines of the listing that are tried one by one as JSON documents when
/// the whole listing is not one: the non-blank lines of the trimmed listing,
/// trimmed.
pub open spec fn listing_lines(output: Seq<char>) -> Seq<Seq<char>> {
    nonempty_trimmed(lines(trim(output)))
}

/// The mutants of a listing, given what its trimmed text parses to (`whole`)
/// and what each of its listing lines parses to (`per_line`): none for a blank
/// listing; those of the whole document when it parsed; else those of the
/// lines that parsed, an error when none did.
pub open spec fn listing_mutants(
    output: Seq<char>,
    whole: Option<JsonValue>,
    per_line: Seq<Option<JsonValue>>,
) -> Result<Seq<(Seq<char>, Seq<char>)>, Seq<char>> {
    if trim(output).len() == 0 {
        Ok(Seq::empty())
    } else {
        match whole {
            Some(v) => Ok(mutants_in(v)),
            None => if any_parsed(per_line) {
                Ok(mutants_in_docs(per_line))
            } else {
                Err("Failed to parse cargo-mutants JSON output"@)
            },
        }
    }
}

fn member_str_exec(members: &Vec<(String, JsonValue)>, key: &str) -> (r: Option<String>)
    ensures
        r matches Some(s) ==> member_str(members@, key@) == Some(s@),
        r is None ==> member_str(members@, key@) is None,
{
    let kv = chars_of(key);
    let mut i: usize = 0;
    assert(members@.skip(0) =~= members@);
    while i < members.len()
        invariant
            i <= members.len(),
            kv@ == key@,
            member_str(members@, key@) == member_str(members@.skip(i as int), key@),
        decreases members.len() - i,
    {
        let name = chars_of(members[i].0.as_str());
        proof {
            let t = members@.skip(i as int);
            assert(t[0] == members@[i as int]);
            assert(t.drop_first() =~= members@.skip(i + 1));
        }
        if chars_eq(&name, &kv) {
            return match &members[i].1 {
                JsonValue::Str(s) => Some(s.clone()),
                _ => None,
            };
        }
        i += 1;
    }
    None
}

/// Adds to `out` the mutant that an object describes, if any.
fn push_own_mutant(members: &Vec<(String, JsonValue)>, out: &mut Vec<CargoJsonMutant>)
    ensures
        listed_view(final(out)@) == listed_view(old(out)@) + own_mutant(members@),
{
    match member_str_exec(members, "diff") {
        None => {
            assert(listed_view(out@) + Seq::<(Seq<char>, Seq<char>)>::empty() =~= listed_view(out@));
        },
        Some(diff) => {
            let name = match member_str_exec(members, "name") {
                Some(n) => n,
                None => match member_str_exec(members, "genre") {
                    Some(g) => g,
                    None => string_of(&chars_of("cargo-mutants mutant")),
                },
            };
            let ghost o0 = listed_view(out@);
            let ghost entry = (name@, diff@);
            out.push(CargoJsonMutant { name, diff });
            assert(listed_view(out@) =~= o0 + seq![entry]);
        },
    }
}

/// Adds to `out` every mutant described anywhere in `value`, in document
/// order: an object's own mutant (one with a string `diff`, named by its
/// `name`, else its `genre`, else `cargo-mutants mutant`) before those inside
/// its members.
pub fn collect_json_mutants_from_value(value: &JsonValue, out: &mut Vec<CargoJsonMutant>)
    ensures
        listed_view(final(out)@) == listed_view(old(out)@) + mutants_in(*value),
    decreases value,
{
    match value {
        JsonValue::Object(members) => {
            push_own_mutant(members, out);
            let ghost base = listed_view(out@);
            let mut i: usize = 0;
            assert(members@.take(0) =~= Seq::<(String, JsonValue)>::empty());
            assert(base + Seq::<(Seq<char>, Seq<char>)>::empty() =~= base);
            while i < members.len()
                invariant
                    i <= members.len(),
                    *value == JsonValue::Object(*members),
                    listed_view(out@) == base + mutants_in_members(members@.take(i as int)),
                decreases members.len() - i,
            {
                proof {
                    assert(members@.take(i + 1).drop_last() =~= members@.take(i as int));
                    assert(members@.take(i + 1).last() == members@[i as int]);
                }
                proof {
                    assert((*value)->Object_0 == *members);
                    assert(decreases_to!(*value => (*value)->Object_0));
                    assert(decreases_to!(*members => members@));
                    assert(decreases_to!(members@ => members@[i as int]));
                    assert(decreases_to!(members@[i as int] => members@[i as int].1));
                }
                collect_json_mutants_from_value(&members[i].1, out);
                i += 1;
            }
            assert(members@.take(i as int) =~= members@);
        },
        JsonValue::Array(items) => {
            let ghost base = listed_view(out@);
            let mut i: usize = 0;
            assert(items@.take(0) =~= Seq::<JsonValue>::empty());
            assert(base + Seq::<(Seq<char>, Seq<char>)>::empty() =~= base);
            while i < items.len()
                invariant
                    i <= items.len(),
                    *value == JsonValue::Array(*items),
                    listed_view(out@) == base + mutants_in_items(items@.take(i as int)),
                decreases items.len() - i,
            {
                proof {
                    assert(items@.take(i + 1).drop_last() =~= items@.take(i as int));
                    assert(items@.take(i + 1).last() == items@[i as int]);
                }
                proof {
                    assert((*value)->Array_0 == *items);
                    assert(decreases_to!(*value => (*value)->Array_0));
                    assert(decreases_to!(*items => items@));
                    assert(decreases_to!(items@ => items@[i as int]));
                }
                collect_json_mutants_from_value(&items[i], out);
                i += 1;
            }
            assert(items@.take(i as int) =~= items@);
        },
        _ => {
            assert(listed_view(out@) + Seq::<(Seq<char>, Seq<char>)>::empty() =~= listed_view(out@));
        },
    }
}

/// The listing with surrounding whitespace removed: the text that is first
/// tried as one JSON document.
pub fn listing_text(output: &str) -> (r: String)
    ensures
        r@ == trim(output@),
{
    let v = chars_of(output);
    let t = trim_chars(&v);
    string_of(&t)
}

/// The lines tried one by one as JSON documents when the whole listing is not
/// one: the non-blank lines of the trimmed listing, trimmed.
pub fn listing_line_texts(output: &str) -> (r: Vec<String>)
    ensures
        crate::text::views(r@) == listing_lines(output@),
{
    let t = listing_text(output);
    nonempty_trimmed_lines(t.as_str())
}

/// The mutants of a `cargo mutants` listing, given what the listing's trimmed
/// text parses to (`whole`) and what each of its listing lines parses to
/// (`per_line`): none for a blank listing (an empty listing is valid); those
/// of the whole document when it parsed; else those of the lines that parsed,
/// and an error when none did.
pub fn mutants_from_documents(
    output: &str,
    whole: Option<JsonValue>,
    per_line: Vec<Option<JsonValue>>,
) -> (r: Result<Vec<CargoJsonMutant>, String>)
    ensures
        r matches Ok(v) ==> listing_mutants(output@, whole, per_line@) == Ok::<
            Seq<(Seq<char>, Seq<char>)>,
            Seq<char>,
        >(listed_view(v@)),
        r matches Err(e) ==> listing_mutants(output@, whole, per_line@) == Err::<
            Seq<(Seq<char>, Seq<char>)>,
            Seq<char>,
        >(e@),
{
    let mut mutants: Vec<CargoJsonMutant> = Vec::new();
    let t = listing_text(output);
    if t.as_str().is_empty() {
        assert(listed_view(mutants@) =~= Seq::<(Seq<char>, Seq<char>)>::empty());
        return Ok(mutants);
    }
    match &whole {
        Some(v) => {
            collect_json_mutants_from_value(v, &mut mutants);
            assert(listed_view(Seq::<CargoJsonMutant>::empty()) + mutants_in(*v) =~= mutants_in(*v));
            return Ok(mutants);
        },
        None => {},
    }
    let mut parsed_any = false;
    let mut i: usize = 0;
    assert(per_line@.take(0) =~= Seq::<Option<JsonValue>>::empty());
    assert(listed_view(mutants@) =~= Seq::<(Seq<char>, Seq<char>)>::empty());
    while i < per_line.len()
        invariant
            i <= per_line.len(),
            listed_view(mutants@) == mutants_in_docs(per_line@.take(i as int)),
            parsed_any == any_parsed(per_line@.take(i as int)),
        decreases per_line.len() - i,
    {
        proof {
            let p = per_line@.take(i + 1);
            assert(p.drop_last() =~= per_line@.take(i as int));
            assert(p.last() == per_line@[i as int]);
        }
        match &per_line[i] {
            Some(v) => {
                let ghost before = listed_view(mutants@);
                collect_json_mutants_from_value(v, &mut mutants);
                proof {
                    let p = per_line@.take(i + 1);
                    assert(p[i as int] is Some);
                }
                parsed_any = true;
            },
            None => {
                proof {
                    let p = per_line@.take(i + 1);
                    let q = per_line@.take(i as int);
                    assert(listed_view(mutants@) + Seq::<(Seq<char>, Seq<char>)>::empty()
                        =~= listed_view(mutants@));
                    if any_parsed(p) {
                        let w = choose|j: int| 0 <= j < p.len() && p[j] is Some;
                        assert(q[w] is Some);
                    }
                    if any_parsed(q) {
                        let w = choose|j: int| 0 <= j < q.len() && q[j] is Some;
                        assert(p[w] is Some);
                    }
                }
            },
        }
        proof {
            let p = per_line@.take(i + 1);
            let q = per_line@.take(i as int);
            if any_parsed(q) {
                let w = choose|j: int| 0 <= j < q.len() && q[j] is Some;
                assert(p[w] is Some);
            }
        }
        i += 1;
    }
    assert(per_line@.take(i as int) =~= per_line@);
    if !parsed_any {
        let msg = chars_of("Failed to parse cargo-mutants JSON output");
        return Err(string_of(&msg));
    }
    Ok(mutants)
}

/// What `text` parses to as one JSON document, if it is one.
pub uninterp spec fn json_document(text: Seq<char>) -> Option<JsonValue>;

#[verifier::external_type_specification]
#[verifier::external_body]
pub struct ExParsedJson(serde_json::Value);

/// The library's value for a document that serde_json parsed: each variant
/// of `serde_json::Value` becomes the variant of the same name, a number
/// losing its digits, an object's members kept in the map's order.
#[verifier::external_body]
fn json_from_parsed(v: &serde_json::Value) -> JsonValue {
    match v {
        serde_json::Value::Null => JsonValue::Null,
        serde_json::Value::Bool(b) => JsonValue::Bool(*b),
        serde_json::Value::Number(_) => JsonValue::Number,
        serde_json::Value::String(s) => JsonValue::Str(s.clone()),
        serde_json::Value::Array(a) => JsonValue::Array(a.iter().map(json_from_parsed).collect()),
        serde_json::Value::Object(m) => JsonValue::Object(
            m.iter().map(|(k, x)| (k.clone(), json_from_parsed(x))).collect(),
        ),
    }
}

/// Calls `serde_json::from_str::<serde_json::Value>` on `text`. Claimed: the
/// result, `None` where serde_json refuses the text, depends on the text
/// alone (serde_json's default map keeps keys sorted, so the order of an
/// object's members is fixed too); it is named `json_document`.
#[verifier::external_body]
fn parse_json_document(text: &str) -> (r: Option<JsonValue>)
    ensures
        r == json_document(text@),
{
    match serde_json::from_str::<serde_json::Value>(text) {
        Ok(v) => Some(json_from_parsed(&v)),
        Err(_) => None,
    }
}

/// The mutants of a `cargo mutants` listing: what `mutants_from_documents`
/// gives for the documents that the listing's text and its lines parse to.
pub open spec fn parsed_listing(output: Seq<char>) -> Result<Seq<(Seq<char>, Seq<char>)>, Seq<char>> {
    listing_mutants(
        output,
        json_document(trim(output)),
        listing_lines(output).map_values(|l: Seq<char>| json_document(l)),
    )
}

/// Reads the mutants out of what `cargo mutants --list --json --diff`
/// printed: the whole trimmed output as one JSON document, or, where it is
/// not one, each non-blank line as a document of its own. An empty listing
/// lists no mutants; output of which no part parses is an error.
pub fn parse_cargo_mutants_json(output: &str) -> (r: Result<Vec<CargoJsonMutant>, String>)
    ensures
        r matches Ok(v) ==> parsed_listing(output@) == Ok::<
            Seq<(Seq<char>, Seq<char>)>,
            Seq<char>,
        >(listed_view(v@)),
        r matches Err(e) ==> parsed_listing(output@) == Err::<
            Seq<(Seq<char>, Seq<char>)>,
            Seq<char>,
        >(e@),
{
    let text = listing_text(output);
    let whole = parse_json_document(text.as_str());
    let ghost all_lines = listing_lines(output@).map_values(|l: Seq<char>| json_document(l));
    if whole.is_some() {
        let none: Vec<Option<JsonValue>> = Vec::new();
        return mutants_from_documents(output, whole, none);
    }
    let lines = listing_line_texts(output);
    let mut per_line: Vec<Option<JsonValue>> = Vec::new();
    let mut i: usize = 0;
    while i < lines.len()
        invariant
            i <= lines.len(),
            crate::text::views(lines@) == listing_lines(output@),
            per_line@ == all_lines.take(i as int),
            all_lines == listing_lines(output@).map_values(|l: Seq<char>| json_document(l)),
        decreases lines.len() - i,
    {
        let doc = parse_json_document(lines[i].as_str());
        proof {
            assert(lines@[i as int]@ == crate::text::views(lines@)[i as int]);
        }
        per_line.push(doc);
        assert(per_line@ =~= all_lines.take(i + 1));
        i += 1;
    }
    assert(per_line@ =~= all_lines);
    mutants_from_documents(output, whole, per_line)
}

/// The mutated files of one source file made from its listing, or why a diff
/// did not apply; `None` where a diff cannot be applied at all.
pub open spec fn source_mutants(
    source_path: Seq<char>,
    source: Seq<char>,
    listing: Seq<(Seq<char>, Seq<char>)>,
) -> Option<Result<Seq<(Seq<char>, Seq<char>, Seq<char>, Seq<char>)>, Seq<char>>>
    decreases listing.len(),
{
    if listing.len() == 0 {
        Some(Ok(Seq::empty()))
    } else {
        match source_mutants(source_path, source, listing.drop_last()) {
            None => None,
            Some(Err(e)) => Some(Err(e)),
            Some(Ok(done)) => {
                let (name, diff) = listing.last();
                match apply_spec(source, diff) {
                    None => None,
                    Some(Err(e)) => Some(
                        Err(
                            "Failed to apply cargo-mutants diff for "@ + source_path + " ("@ + name
                                + "): "@ + e,
                        ),
                    ),
                    Some(Ok(mutated)) => Some(Ok(done.push((source_path, name, mutated, diff)))),
                }
            },
        }
    }
}

/// The view of a list of mutated files.
pub open spec fn file_mutants_view(v: Seq<FileMutant>) -> Seq<(Seq<char>, Seq<char>, Seq<char>, Seq<char>)> {
    v.map_values(|m: FileMutant| (m.source_path@, m.name@, m.mutated_source@, m.diff@))
}

/// The view of the outcome of making the mutated files of a source.
pub open spec fn source_mutants_view(r: Option<Result<Vec<FileMutant>, String>>) -> Option<
    Result<Seq<(Seq<char>, Seq<char>, Seq<char>, Seq<char>)>, Seq<char>>,
> {
    match r {
        None => None,
        Some(Ok(v)) => Some(Ok(file_mutants_view(v@))),
        Some(Err(e)) => Some(Err(e@)),
    }
}

proof fn lemma_source_mutants_stop(
    source_path: Seq<char>,
    source: Seq<char>,
    listing: Seq<(Seq<char>, Seq<char>)>,
    n: int,
)
    requires
        0 <= n <= listing.len(),
        !(source_mutants(source_path, source, listing.take(n)) matches Some(Ok(_))),
    ensures
        source_mutants(source_path, source, listing) == source_mutants(
            source_path,
            source,
            listing.take(n),
        ),
    decreases listing.len(),
{
    if n < listing.len() {
        assert(listing.drop_last().take(n) =~= listing.take(n));
        lemma_source_mutants_stop(source_path, source, listing.drop_last(), n);
    } else {
        assert(listing.take(n) =~= listing);
    }
}

/// The mutated copies of the source file `source_path` (text `source`) that
/// its listing describes, one per listed mutant, in order; an error naming
/// the file and mutant for the first diff that does not apply; `None` where
/// a diff line cannot be split after its first byte.
pub fn mutants_for_source(source_path: &str, source: &str, listing: &Vec<CargoJsonMutant>) -> (r:
    Option<Result<Vec<FileMutant>, String>>)
    ensures
        source_mutants_view(r) == source_mutants(source_path@, source@, listed_view(listing@)),
{
    let ghost lv = listed_view(listing@);
    let mut done: Vec<FileMutant> = Vec::new();
    let mut i: usize = 0;
    assert(lv.take(0) =~= Seq::<(Seq<char>, Seq<char>)>::empty());
    assert(file_mutants_view(done@) =~= Seq::<(Seq<char>, Seq<char>, Seq<char>, Seq<char>)>::empty());
    while i < listing.len()
        invariant
            i <= listing.len(),
            lv == listed_view(listing@),
            source_mutants(source_path@, source@, lv.take(i as int)) == Some(
                Ok::<Seq<(Seq<char>, Seq<char>, Seq<char>, Seq<char>)>, Seq<char>>(
                    file_mutants_view(done@),
                ),
            ),
        decreases listing.len() - i,
    {
        let m = &listing[i];
        proof {
            let p = lv.take(i + 1);
            assert(p.drop_last() =~= lv.take(i as int));
            assert(p.last() == (m.name@, m.diff@));
        }
        match apply_unified_diff_checked(source, m.diff.as_str()) {
            None => {
                proof {
                    lemma_source_mutants_stop(source_path@, source@, lv, i + 1);
                    assert(lv.take(lv.len() as int) =~= lv);
                }
                return None;
            },
            Some(Err(e)) => {
                let mut v = chars_of("Failed to apply cargo-mutants diff for ");
                push_str(&mut v, source_path);
                push_str(&mut v, " (");
                push_str(&mut v, m.name.as_str());
                push_str(&mut v, "): ");
                push_str(&mut v, e.as_str());
                let err = string_of(&v);
                proof {
                    lemma_source_mutants_stop(source_path@, source@, lv, i + 1);
                }
                return Some(Err(err));
            },
            Some(Ok(mutated)) => {
                let ghost d0 = file_mutants_view(done@);
                let fm = FileMutant {
                    source_path: string_of(&chars_of(source_path)),
                    name: m.name.clone(),
                    mutated_source: mutated,
                    diff: m.diff.clone(),
                };
                let ghost entry = (fm.source_path@, fm.name@, fm.mutated_source@, fm.diff@);
                done.push(fm);
                assert(file_mutants_view(done@) =~= d0.push(entry));
            },
        }
        i += 1;
    }
    assert(lv.take(i as int) =~= lv);
    Some(Ok(done))
}

/// A blank listing is valid and lists no mutant, whatever the parser made of
/// it; so is a listing that is an empty JSON array.
pub proof fn law_empty_listing_lists_nothing(
    output: Seq<char>,
    whole: Option<JsonValue>,
    per_line: Seq<Option<JsonValue>>,
)
    ensures
        trim(output).len() == 0 ==> listing_mutants(output, whole, per_line) == Ok::<
            Seq<(Seq<char>, Seq<char>)>,
            Seq<char>,
        >(Seq::empty()),
        whole matches Some(JsonValue::Array(items)) && items@.len() == 0 ==> listing_mutants(
            output,
            whole,
            per_line,
        ) == Ok::<Seq<(Seq<char>, Seq<char>)>, Seq<char>>(Seq::empty()),
{
}

/// The mutants of an array are those of its items, in order.
pub proof fn law_array_mutants_concatenate(a: Seq<JsonValue>, b: Seq<JsonValue>)
    ensures
        mutants_in_items(a + b) == mutants_in_items(a) + mutants_in_items(b),
    decreases b.len(),
{
    if b.len() == 0 {
        assert(a + b =~= a);
        assert(mutants_in_items(a) + Seq::<(Seq<char>, Seq<char>)>::empty() =~= mutants_in_items(a));
    } else {
        assert((a + b).drop_last() =~= a + b.drop_last());
        law_array_mutants_concatenate(a, b.drop_last());
        assert(mutants_in_items(a) + mutants_in_items(b.drop_last()) + mutants_in(b.last())
            =~= mutants_in_items(a) + (mutants_in_items(b.drop_last()) + mutants_in(b.last())));
    }
}


/// The mutants of a source file, from what one run of
/// `cargo mutants --list --json --diff --Zmutate-file` on it gave: an error
/// naming the file when the run failed; otherwise the listing it printed,
/// read by `parse_cargo_mutants_json` and applied by `mutants_for_source`
/// (`None` where a diff holds a line that cannot be split after its first
/// byte).
pub fn mutants_from_listing_run(
    source_path: &str,
    source: &str,
    success: bool,
    stdout: &str,
    stderr: &str,
) -> (r: Option<Result<Vec<FileMutant>, String>>)
    ensures
        !success ==> (r matches Some(Err(e)) && e@ == "cargo-mutants --Zmutate-file failed for "@
            + source_path@ + ":\n"@ + process_output_text(stdout@, stderr@)),
        success ==> source_mutants_view(r) == match parsed_listing(stdout@) {
            Ok(listing) => source_mutants(source_path@, source@, listing),
            Err(e) => Some(Err::<Seq<(Seq<char>, Seq<char>, Seq<char>, Seq<char>)>, Seq<char>>(e)),
        },
{
    if !success {
        let mut v = chars_of("cargo-mutants --Zmutate-file failed for ");
        push_str(&mut v, source_path);
        push_str(&mut v, ":\n");
        let details = format_process_output(stdout, stderr);
        push_str(&mut v, details.as_str());
        return Some(Err(string_of(&v)));
    }
    match parse_cargo_mutants_json(stdout) {
        Ok(listing) => mutants_for_source(source_path, source, &listing),
        Err(e) => Some(Err(e)),
    }
}


/// Each mutated file made from a listing is the unmodified source with that
/// listed mutant's own diff applied, named and labelled as the listing names
/// it, one per listed mutant and in the listing's order, whatever the other
/// listed mutants are; and when every listed diff applies, the mutants are
/// made.
pub proof fn law_each_mutant_applies_its_own_diff(
    source_path: Seq<char>,
    source: Seq<char>,
    listing: Seq<(Seq<char>, Seq<char>)>,
)
    ensures
        source_mutants(source_path, source, listing) matches Some(Ok(ms)) ==> {
            &&& ms.len() == listing.len()
            &&& forall|i: int|
                0 <= i < listing.len() ==> {
                    &&& (#[trigger] ms[i]).0 == source_path
                    &&& ms[i].1 == listing[i].0
                    &&& ms[i].3 == listing[i].1
                    &&& apply_spec(source, listing[i].1) == Some(
                        Ok::<Seq<char>, Seq<char>>(ms[i].2),
                    )
                }
        },
        (forall|i: int|
            0 <= i < listing.len() ==> #[trigger] apply_spec(source, listing[i].1) matches Some(
                Ok(_),
            )) ==> source_mutants(source_path, source, listing) is Some && source_mutants(
            source_path,
            source,
            listing,
        )->0 is Ok,
    decreases listing.len(),
{
    if listing.len() > 0 {
        let q = listing.drop_last();
        law_each_mutant_applies_its_own_diff(source_path, source, q);
        assert forall|i: int| 0 <= i < q.len() implies q[i] == listing[i] by {}
        if forall|i: int|
            0 <= i < listing.len() ==> #[trigger] apply_spec(source, listing[i].1) matches Some(
                Ok(_),
            ) {
            assert forall|i: int|
                0 <= i < q.len() implies #[trigger] apply_spec(source, q[i].1) matches Some(Ok(_)) by {
                assert(q[i] == listing[i]);
            }
            assert(apply_spec(source, listing[listing.len() - 1].1) matches Some(Ok(_)));
        }
        match source_mutants(source_path, source, q) {
            Some(Ok(done)) => {
                match source_mutants(source_path, source, listing) {
                    Some(Ok(ms)) => {
                        assert forall|i: int| 0 <= i < listing.len() implies {
                            &&& (#[trigger] ms[i]).0 == source_path
                            &&& ms[i].1 == listing[i].0
                            &&& ms[i].3 == listing[i].1
                            &&& apply_spec(source, listing[i].1) == Some(
                                Ok::<Seq<char>, Seq<char>>(ms[i].2),
                            )
                        } by {
                            if i < q.len() {
                                assert(ms[i] == done[i]);
                                assert(q[i] == listing[i]);
                            }
                        }
                    },
                    _ => {},
                }
            },
            _ => {},
        }
    }
}

} // verus!
