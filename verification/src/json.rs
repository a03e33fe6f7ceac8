//! Reading a manifest out of a JSON document.
//!
//! The document is parsed by `serde_json`; what a parsed value holds is
//! known here only through the names below. How a manifest is laid out in
//! such a value is decided, and proved, in this file.

use crate::manifest::{
    import_paths, input_paths, optional_string, sources_distinct, Import, InputInOutput,
    Manifest, ManifestView, Output, OutputView,
};
use crate::text::str_eq;
use serde_json::Value;
use vstd::prelude::*;

verus! {

/// A parsed JSON value. Nothing of its inside is visible to the verifier.
#[verifier::external_type_specification]
#[verifier::external_body]
pub struct ExValue(serde_json::Value);

/// The error of the JSON parser.
#[verifier::external_type_specification]
#[verifier::external_body]
pub struct ExJsonError(serde_json::Error);

/// The value that `serde_json::from_str` reads from `text`; `None` where it
/// reports an error.
pub uninterp spec fn json_document(text: Seq<char>) -> Option<serde_json::Value>;

/// The members of a JSON object, in the order in which `serde_json` walks
/// them; `None` for a value that is no object.
pub uninterp spec fn json_members(value: serde_json::Value) -> Option<
    Seq<(Seq<char>, serde_json::Value)>,
>;

/// The elements of a JSON array; `None` for a value that is no array.
pub uninterp spec fn json_elements(value: serde_json::Value) -> Option<Seq<serde_json::Value>>;

/// The characters of a JSON string; `None` for a value that is no string.
pub uninterp spec fn json_text(value: serde_json::Value) -> Option<Seq<char>>;

/// Whether a JSON value is `null`.
pub uninterp spec fn json_is_null(value: serde_json::Value) -> bool;

/// The members of an object as plain values.
pub open spec fn member_views(members: Seq<(&String, &Value)>) -> Seq<(Seq<char>, Value)> {
    members.map_values(|member: (&String, &Value)| (member.0@, *member.1))
}

/// The keys of the members of an object.
pub open spec fn member_keys(members: Seq<(Seq<char>, Value)>) -> Seq<Seq<char>> {
    members.map_values(|member: (Seq<char>, Value)| member.0)
}

/// `serde_json::from_str` at the type `Value`.
///
/// Trusted: the contract only names the outcome, [`json_document`]. The
/// parser keeps to a fixed nesting depth and reports anything deeper as an
/// error.
#[verifier::external_body]
fn parse(text: &str) -> (parsed: Result<Value, serde_json::Error>)
    ensures
        match parsed {
            Ok(document) => json_document(text@) == Some(document),
            Err(_) => json_document(text@).is_none(),
        },
{
    serde_json::from_str::<Value>(text)
}

/// The `Display` text of a parser error. Trusted, with nothing claimed of the
/// text.
#[verifier::external_body]
fn error_text(error: &serde_json::Error) -> String {
    error.to_string()
}

/// `Value::as_object`, with the entries that `Map::iter` hands out.
///
/// Trusted: the contract names them, [`json_members`], and says that no key
/// stands twice among them, as holds of the keys of a map.
#[verifier::external_body]
fn members<'a>(value: &'a Value) -> (found: Option<Vec<(&'a String, &'a Value)>>)
    ensures
        match found {
            Some(entries) => json_members(*value) == Some(member_views(entries@))
                && member_keys(member_views(entries@)).no_duplicates(),
            None => json_members(*value).is_none(),
        },
{
    value.as_object().map(|object| object.iter().collect())
}

/// `Value::as_array`. Trusted: the contract only names the elements,
/// [`json_elements`].
#[verifier::external_body]
fn elements<'a>(value: &'a Value) -> (found: Option<&'a Vec<Value>>)
    ensures
        match found {
            Some(items) => json_elements(*value) == Some(items@),
            None => json_elements(*value).is_none(),
        },
{
    value.as_array()
}

/// `Value::as_str`. Trusted: the contract only names the characters,
/// [`json_text`].
#[verifier::external_body]
fn text_of<'a>(value: &'a Value) -> (found: Option<&'a str>)
    ensures
        match found {
            Some(text) => json_text(*value) == Some(text@),
            None => json_text(*value).is_none(),
        },
{
    value.as_str()
}

/// `Value::is_null`. Trusted: the contract only names the answer,
/// [`json_is_null`].
#[verifier::external_body]
fn is_null(value: &Value) -> (null: bool)
    ensures
        null == json_is_null(*value),
{
    value.is_null()
}

/// The value of the first member called `key`.
pub open spec fn member_named(members: Seq<(Seq<char>, Value)>, key: Seq<char>) -> Option<Value>
    decreases members.len(),
{
    if members.len() == 0 {
        None
    } else if members[0].0 == key {
        Some(members[0].1)
    } else {
        member_named(members.skip(1), key)
    }
}

/// The path of an import: the string under `path` of an object.
pub open spec fn decoded_import(value: Value) -> Option<Seq<char>> {
    match json_members(value) {
        Some(members) => match member_named(members, "path"@) {
            Some(path) => json_text(path),
            None => None,
        },
        None => None,
    }
}

/// The paths of an array of imports; `None` unless each element is one.
pub open spec fn decoded_imports(value: Value) -> Option<Seq<Seq<char>>> {
    match json_elements(value) {
        Some(items) => if forall|i: int|
            0 <= i < items.len() ==> (#[trigger] decoded_import(items[i])).is_some() {
            Some(Seq::new(items.len(), |i: int| decoded_import(items[i]).unwrap()))
        } else {
            None
        },
        None => None,
    }
}

/// A string that may be left out: absent and `null` both stand for none.
/// The outer `None` says that the member is there and is neither.
pub open spec fn decoded_optional_text(members: Seq<(Seq<char>, Value)>, key: Seq<char>) -> Option<
    Option<Seq<char>>,
> {
    match member_named(members, key) {
        None => Some(None),
        Some(value) => if json_is_null(value) {
            Some(None)
        } else {
            match json_text(value) {
                Some(text) => Some(Some(text)),
                None => None,
            }
        },
    }
}

/// The sources of an output: the keys of the object under `inputs`, each of
/// which holds an object; none where the member is left out.
pub open spec fn decoded_inputs(members: Seq<(Seq<char>, Value)>) -> Option<Seq<Seq<char>>> {
    match member_named(members, "inputs"@) {
        None => Some(Seq::empty()),
        Some(value) => match json_members(value) {
            Some(sources) => if forall|i: int|
                0 <= i < sources.len() ==> (#[trigger] json_members(sources[i].1)).is_some() {
                Some(Seq::new(sources.len(), |i: int| sources[i].0))
            } else {
                None
            },
            None => None,
        },
    }
}

/// The record that a JSON value holds: an object with an array `imports`,
/// and optionally `cssBundle`, `entryPoint` and `inputs`. Other members are
/// passed over.
pub open spec fn decoded_output(value: Value) -> Option<OutputView> {
    match json_members(value) {
        Some(members) => match member_named(members, "imports"@) {
            Some(imports) => match (
                decoded_imports(imports),
                decoded_optional_text(members, "cssBundle"@),
                decoded_optional_text(members, "entryPoint"@),
                decoded_inputs(members),
            ) {
                (Some(imports), Some(css_bundle), Some(entry_point), Some(inputs)) => Some(
                    OutputView { imports, css_bundle, entry_point, inputs },
                ),
                _ => None,
            },
            None => None,
        },
        None => None,
    }
}

/// The manifest made of the first `count` of `members`, a later record
/// taking the place of an earlier one under the same path; `None` unless
/// each of them holds a record.
pub open spec fn decoded_outputs(members: Seq<(Seq<char>, Value)>, count: nat) -> Option<
    ManifestView,
>
    decreases count,
{
    if count == 0 {
        Some(Map::empty())
    } else {
        match (
            decoded_outputs(members, (count - 1) as nat),
            decoded_output(members[count - 1].1),
        ) {
            (Some(manifest), Some(output)) => Some(manifest.insert(members[count - 1].0, output)),
            _ => None,
        }
    }
}

/// The order in which the outputs of a JSON document are walked: that of the
/// members of its object `outputs`.
pub open spec fn decoded_order(document: Value) -> Seq<Seq<char>> {
    match json_members(document) {
        Some(members) => match member_named(members, "outputs"@) {
            Some(outputs) => match json_members(outputs) {
                Some(records) => member_keys(records),
                None => Seq::empty(),
            },
            None => Seq::empty(),
        },
        None => Seq::empty(),
    }
}

/// The manifest that a JSON document holds: an object whose member `outputs`
/// is an object of records by path.
pub open spec fn decoded_manifest(document: Value) -> Option<ManifestView> {
    match json_members(document) {
        Some(members) => match member_named(members, "outputs"@) {
            Some(outputs) => match json_members(outputs) {
                Some(records) => decoded_outputs(records, records.len()),
                None => None,
            },
            None => None,
        },
        None => None,
    }
}

/// The value of the first member called `key`.
fn find_member<'a>(entries: &Vec<(&'a String, &'a Value)>, key: &str) -> (found: Option<&'a Value>)
    ensures
        match found {
            Some(value) => member_named(member_views(entries@), key@) == Some(*value),
            None => member_named(member_views(entries@), key@).is_none(),
        },
{
    let ghost all = member_views(entries@);
    let mut i: usize = 0;
    proof {
        assert(all.skip(0) =~= all);
    }
    while i < entries.len()
        invariant
            i <= entries@.len(),
            all == member_views(entries@),
            member_named(all, key@) == member_named(all.skip(i as int), key@),
        decreases entries@.len() - i,
    {
        let entry = &entries[i];
        proof {
            assert(all.skip(i as int)[0] == all[i as int]);
            assert(all.skip(i as int).skip(1) =~= all.skip(i + 1));
        }
        if str_eq(entry.0.as_str(), key) {
            return Some(entry.1);
        }
        i = i + 1;
    }
    None
}

/// Reads the path of an import.
fn decode_import(value: &Value) -> (import: Option<Import>)
    ensures
        match import {
            Some(found) => decoded_import(*value) == Some(found.path@),
            None => decoded_import(*value).is_none(),
        },
{
    match members(value) {
        Some(entries) => match find_member(&entries, "path") {
            Some(path) => match text_of(path) {
                Some(text) => Some(Import { path: text.to_owned() }),
                None => None,
            },
            None => None,
        },
        None => None,
    }
}

/// Reads an array of imports.
fn decode_imports(value: &Value) -> (imports: Option<Vec<Import>>)
    ensures
        match imports {
            Some(found) => decoded_imports(*value) == Some(import_paths(found@)),
            None => decoded_imports(*value).is_none(),
        },
{
    match elements(value) {
        Some(items) => {
            let mut imports: Vec<Import> = Vec::new();
            let mut i: usize = 0;
            while i < items.len()
                invariant
                    i <= items@.len(),
                    imports@.len() == i,
                    json_elements(*value) == Some(items@),
                    forall|j: int|
                        0 <= j < i ==> (#[trigger] decoded_import(items@[j])) == Some(
                            imports@[j].path@,
                        ),
                decreases items@.len() - i,
            {
                match decode_import(&items[i]) {
                    Some(import) => {
                        imports.push(import);
                    },
                    None => {
                        proof {
                            assert(decoded_import(items@[i as int]).is_none());
                        }
                        return None;
                    },
                }
                i = i + 1;
            }
            proof {
                assert(import_paths(imports@) =~= Seq::new(
                    items@.len(),
                    |i: int| decoded_import(items@[i]).unwrap(),
                ));
            }
            Some(imports)
        },
        None => None,
    }
}

/// Reads a string that may be left out. The outer `None` says that the
/// member is there and is neither a string nor `null`.
fn decode_optional_text(entries: &Vec<(&String, &Value)>, key: &str) -> (text: Option<
    Option<String>,
>)
    ensures
        match text {
            Some(found) => decoded_optional_text(member_views(entries@), key@) == Some(
                optional_string(found),
            ),
            None => decoded_optional_text(member_views(entries@), key@).is_none(),
        },
{
    match find_member(entries, key) {
        None => Some(None),
        Some(value) => {
            if is_null(value) {
                Some(None)
            } else {
                match text_of(value) {
                    Some(text) => Some(Some(text.to_owned())),
                    None => None,
                }
            }
        },
    }
}

/// Reads the sources of an output.
fn decode_inputs(entries: &Vec<(&String, &Value)>) -> (inputs: Option<
    Vec<(String, InputInOutput)>,
>)
    ensures
        match inputs {
            Some(found) => decoded_inputs(member_views(entries@)) == Some(input_paths(found@))
                && input_paths(found@).no_duplicates(),
            None => decoded_inputs(member_views(entries@)).is_none(),
        },
{
    match find_member(entries, "inputs") {
        None => {
            let inputs: Vec<(String, InputInOutput)> = Vec::new();
            proof {
                assert(input_paths(inputs@) =~= Seq::<Seq<char>>::empty());
            }
            Some(inputs)
        },
        Some(value) => match members(value) {
            Some(sources) => {
                let mut inputs: Vec<(String, InputInOutput)> = Vec::new();
                let mut i: usize = 0;
                while i < sources.len()
                    invariant
                        i <= sources@.len(),
                        inputs@.len() == i,
                        member_named(member_views(entries@), "inputs"@) == Some(*value),
                        json_members(*value) == Some(member_views(sources@)),
                        member_keys(member_views(sources@)).no_duplicates(),
                        forall|j: int|
                            0 <= j < i ==> (#[trigger] json_members(
                                member_views(sources@)[j].1,
                            )).is_some(),
                        forall|j: int|
                            0 <= j < i ==> (#[trigger] inputs@[j]).0@ == member_views(
                                sources@,
                            )[j].0,
                    decreases sources@.len() - i,
                {
                    let source = &sources[i];
                    match members(source.1) {
                        Some(_) => {
                            inputs.push((source.0.clone(), InputInOutput {  }));
                        },
                        None => {
                            proof {
                                assert(json_members(member_views(sources@)[i as int].1).is_none());
                            }
                            return None;
                        },
                    }
                    i = i + 1;
                }
                proof {
                    let views = member_views(sources@);
                    assert(input_paths(inputs@) =~= Seq::new(
                        views.len(),
                        |i: int| views[i].0,
                    ));
                    assert(input_paths(inputs@) =~= member_keys(views));
                }
                Some(inputs)
            },
            None => None,
        },
    }
}

/// Reads the record of one output.
pub fn decode_output(value: &Value) -> (output: Option<Output>)
    ensures
        match output {
            Some(found) => decoded_output(*value) == Some(found@)
                && found@.inputs.no_duplicates(),
            None => decoded_output(*value).is_none(),
        },
{
    let entries = match members(value) {
        Some(entries) => entries,
        None => {
            return None;
        },
    };
    let imports = match find_member(&entries, "imports") {
        Some(listed) => match decode_imports(listed) {
            Some(imports) => imports,
            None => {
                return None;
            },
        },
        None => {
            return None;
        },
    };
    let css_bundle = match decode_optional_text(&entries, "cssBundle") {
        Some(css_bundle) => css_bundle,
        None => {
            return None;
        },
    };
    let entry_point = match decode_optional_text(&entries, "entryPoint") {
        Some(entry_point) => entry_point,
        None => {
            return None;
        },
    };
    let inputs = match decode_inputs(&entries) {
        Some(inputs) => inputs,
        None => {
            return None;
        },
    };
    Some(Output { imports, css_bundle, entry_point, inputs })
}

/// Reads the manifest that a JSON document holds.
pub fn decode_manifest(document: &Value) -> (manifest: Option<Manifest>)
    ensures
        match manifest {
            Some(found) => {
                &&& found.wf()
                &&& decoded_manifest(*document) == Some(found@)
                &&& found.paths() == decoded_order(*document)
                &&& sources_distinct(found@)
            },
            None => decoded_manifest(*document).is_none(),
        },
{
    let top = match members(document) {
        Some(top) => top,
        None => {
            return None;
        },
    };
    let outputs = match find_member(&top, "outputs") {
        Some(outputs) => outputs,
        None => {
            return None;
        },
    };
    let records = match members(outputs) {
        Some(records) => records,
        None => {
            return None;
        },
    };
    let ghost views = member_views(records@);
    let mut manifest = Manifest::new();
    let mut i: usize = 0;
    while i < records.len()
        invariant
            i <= records@.len(),
            views == member_views(records@),
            json_members(*document) == Some(member_views(top@)),
            member_named(member_views(top@), "outputs"@) == Some(*outputs),
            json_members(*outputs) == Some(views),
            member_keys(views).no_duplicates(),
            manifest.wf(),
            decoded_outputs(views, i as nat) == Some(manifest@),
            manifest.paths() == member_keys(views).take(i as int),
            sources_distinct(manifest@),
        decreases records@.len() - i,
    {
        let record = &records[i];
        match decode_output(record.1) {
            Some(output) => {
                proof {
                    manifest.lemma_paths();
                    let keys = member_keys(views);
                    let taken = keys.take(i as int);
                    assert(keys[i as int] == record.0@);
                    if taken.contains(record.0@) {
                        let j = choose|j: int| 0 <= j < taken.len() && taken[j] == record.0@;
                        assert(keys[j] == keys[i as int]);
                    }
                    assert(keys.take(i + 1) =~= taken.push(record.0@));
                }
                manifest.insert(record.0.clone(), output);
            },
            None => {
                proof {
                    lemma_bad_record(views, (i + 1) as nat, views.len());
                }
                return None;
            },
        }
        i = i + 1;
    }
    proof {
        assert(member_keys(views).take(i as int) =~= member_keys(views));
    }
    Some(manifest)
}

/// Once a record cannot be read, no longer run of records can.
proof fn lemma_bad_record(members: Seq<(Seq<char>, Value)>, bad: nat, count: nat)
    requires
        decoded_outputs(members, bad).is_none(),
        bad <= count,
    ensures
        decoded_outputs(members, count).is_none(),
    decreases count,
{
    if bad < count {
        lemma_bad_record(members, bad, (count - 1) as nat);
    }
}

/// Parses `text` as JSON. The error is the parser's message.
pub fn parse_document(text: &str) -> (parsed: Result<Value, String>)
    ensures
        match parsed {
            Ok(document) => json_document(text@) == Some(document),
            Err(_) => json_document(text@).is_none(),
        },
{
    match parse(text) {
        Ok(document) => Ok(document),
        Err(error) => Err(error_text(&error)),
    }
}

} // verus!
