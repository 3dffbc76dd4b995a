//! What is noted down about a run: the members of `workspace.json`.

use vstd::prelude::*;

verus! {

/// A value of the `serde_json` crate.
#[verifier::external_type_specification]
#[verifier::external_body]
pub struct ExJsonValue(serde_json::Value);

/// What the `serde_json` crate reports of a text that is no JSON.
#[verifier::external_type_specification]
#[verifier::external_body]
pub struct ExJsonError(serde_json::Error);

/// The value of a member that is written down.
#[derive(Debug)]
pub enum JsonMember {
    Text(String),
    Number(u64),
    Flag(bool),
}

/// The value of a member, as a value.
pub enum JsonMemberView {
    Text(Seq<char>),
    Number(u64),
    Flag(bool),
}

impl View for JsonMember {
    type V = JsonMemberView;

    open spec fn view(&self) -> JsonMemberView {
        match *self {
            JsonMember::Text(s) => JsonMemberView::Text(s@),
            JsonMember::Number(n) => JsonMemberView::Number(n),
            JsonMember::Flag(b) => JsonMemberView::Flag(b),
        }
    }
}

/// Named members as values.
pub open spec fn member_views(members: Seq<(String, JsonMember)>) -> Seq<(Seq<char>, JsonMemberView)> {
    Seq::new(members.len(), |i: int| (members[i].0@, members[i].1@))
}

/// No two of `members` have the same name.
pub open spec fn distinct_names(members: Seq<(Seq<char>, JsonMemberView)>) -> bool {
    forall|i: int, j: int| 0 <= i < j < members.len() ==> (#[trigger] members[i]).0 != (#[trigger] members[j]).0
}

/// `members` have a flag `value` under `name`.
pub open spec fn has_flag(members: Seq<(Seq<char>, JsonMemberView)>, name: Seq<char>, value: bool) -> bool {
    exists|i: int|
        0 <= i < members.len() && #[trigger] members[i] == (name, JsonMemberView::Flag(value))
}

/// The members of an object that are `true` or `false`; none where `value` is no object.
pub uninterp spec fn flags_in(value: serde_json::Value) -> Map<Seq<char>, bool>;

/// The members that are `true` or `false` of the object that `text` is in JSON: none where it is
/// JSON but no object, and `None` where it is no JSON.
pub uninterp spec fn parsed_flags(text: Seq<char>) -> Option<Map<Seq<char>, bool>>;

/// The text of the object with the given members in JSON, set out over several lines.
pub uninterp spec fn pretty_object(members: Seq<(Seq<char>, JsonMemberView)>) -> Seq<char>;

/// Reads a JSON value: `serde_json::from_str`. A value comes out where the text is JSON, and holds
/// what the text says.
#[verifier::external_body]
pub(crate) fn parse_value(text: &str) -> (parsed: Result<serde_json::Value, serde_json::Error>)
    ensures
        match parsed {
            Ok(value) => parsed_flags(text@) == Some(flags_in(value)),
            Err(_) => parsed_flags(text@) is None,
        },
{
    serde_json::from_str::<serde_json::Value>(text)
}

/// The flag under `name`: `Value::get`, which looks up a member of an object and finds nothing in
/// any other value, and then `Value::as_bool`, which takes `true` and `false` only.
#[verifier::external_body]
pub(crate) fn flag_under(value: &serde_json::Value, name: &str) -> (flag: Option<bool>)
    ensures
        flag == (if flags_in(*value).contains_key(name@) {
            Some(flags_in(*value)[name@])
        } else {
            None
        }),
{
    value.get(name).and_then(|member| member.as_bool())
}

/// Writes an object with the given members: `serde_json::to_string_pretty` of a `Value::Object`.
/// It fails where the serialisation of the value does or where a key is no string, which of such
/// an object neither does. The text reads back as an object with the same flags.
#[verifier::external_body]
pub(crate) fn write_object(members: &Vec<(String, JsonMember)>) -> (text: Result<String, serde_json::Error>)
    requires
        distinct_names(member_views(members@)),
    ensures
        text is Ok,
        text->Ok_0@ == pretty_object(member_views(members@)),
        parsed_flags(text->Ok_0@) is Some,
        forall|name: Seq<char>, value: bool| #[trigger]
            has_flag(member_views(members@), name, value) <==> (parsed_flags(text->Ok_0@)->0.contains_key(name)
                && parsed_flags(text->Ok_0@)->0[name] == value),
{
    let mut object = serde_json::Map::new();
    for (name, member) in members {
        let value = match member {
            JsonMember::Text(s) => serde_json::Value::from(s.as_str()),
            JsonMember::Number(n) => serde_json::Value::from(*n),
            JsonMember::Flag(b) => serde_json::Value::from(*b),
        };
        object.insert(name.clone(), value);
    }
    serde_json::to_string_pretty(&serde_json::Value::Object(object))
}

/// The members of `workspace.json` after a run over the workspace at `root`.
pub open spec fn workspace_object(
    root: Seq<char>,
    indexed_at: Seq<char>,
    files_indexed: u64,
    semantic: bool,
) -> Seq<(Seq<char>, JsonMemberView)> {
    seq![
        ("workspace"@, JsonMemberView::Text(root)),
        ("indexed_at"@, JsonMemberView::Text(indexed_at)),
        ("files_indexed"@, JsonMemberView::Number(files_indexed)),
        ("semantic"@, JsonMemberView::Flag(semantic)),
    ]
}

/// The members of `workspace.json`.
pub fn workspace_members(root: &str, indexed_at: &str, files_indexed: usize, semantic: bool) -> (members: Vec<
    (String, JsonMember),
>)
    ensures
        member_views(members@) == workspace_object(root@, indexed_at@, files_indexed as u64, semantic),
{
    let mut members: Vec<(String, JsonMember)> = Vec::new();
    members.push(("workspace".to_owned(), JsonMember::Text(root.to_owned())));
    members.push(("indexed_at".to_owned(), JsonMember::Text(indexed_at.to_owned())));
    members.push(("files_indexed".to_owned(), JsonMember::Number(files_indexed as u64)));
    members.push(("semantic".to_owned(), JsonMember::Flag(semantic)));
    assert(member_views(members@) =~= workspace_object(root@, indexed_at@, files_indexed as u64, semantic));
    members
}

/// The flag that `text`, in JSON, has under `semantic`.
pub open spec fn semantic_flag(text: Seq<char>) -> Option<bool> {
    match parsed_flags(text) {
        Some(flags) => if flags.contains_key("semantic"@) {
            Some(flags["semantic"@])
        } else {
            None
        },
        None => None,
    }
}

/// The text of `workspace.json`, from which the semantic flag reads back as it was written.
pub fn metadata_text(root: &str, indexed_at: &str, files_indexed: usize, semantic: bool) -> (text: String)
    ensures
        text@ == pretty_object(workspace_object(root@, indexed_at@, files_indexed as u64, semantic)),
        semantic_flag(text@) == Some(semantic),
{
    let members = workspace_members(root, indexed_at, files_indexed, semantic);
    proof {
        reveal_strlit("workspace");
        reveal_strlit("indexed_at");
        reveal_strlit("files_indexed");
        reveal_strlit("semantic");
        assert("workspace"@.len() == 9 && "indexed_at"@.len() == 10 && "files_indexed"@.len() == 13
            && "semantic"@.len() == 8);
        let views = member_views(members@);
        assert(views[3] == ("semantic"@, JsonMemberView::Flag(semantic)));
        assert(has_flag(views, "semantic"@, semantic));
    }
    match write_object(&members) {
        Ok(text) => text,
        Err(_) => String::new(),
    }
}

/// The semantic flag in what came of reading `workspace.json` as JSON.
pub fn flag_of_parsed(parsed: Result<serde_json::Value, serde_json::Error>) -> (flag: Option<bool>)
    ensures
        flag == (match parsed {
            Ok(value) => if flags_in(value).contains_key("semantic"@) {
                Some(flags_in(value)["semantic"@])
            } else {
                None
            },
            Err(_) => None,
        }),
{
    match parsed {
        Ok(value) => flag_under(&value, "semantic"),
        Err(_) => None,
    }
}

/// The semantic flag in the text of `workspace.json`.
pub fn read_semantic_flag(text: &str) -> (flag: Option<bool>)
    ensures
        flag == semantic_flag(text@),
{
    flag_of_parsed(parse_value(text))
}

// ---------------------------------------------------------------------------------------------
// Laws
// ---------------------------------------------------------------------------------------------

/// What is noted down about a run is the root, the time, the number of files and the flag, each
/// under its name.
pub proof fn law_metadata_holds_the_run(root: Seq<char>, indexed_at: Seq<char>, files_indexed: u64, semantic: bool)
    ensures
        ({
            let members = workspace_object(root, indexed_at, files_indexed, semantic);
            &&& members.len() == 4
            &&& members.contains(("workspace"@, JsonMemberView::Text(root)))
            &&& members.contains(("indexed_at"@, JsonMemberView::Text(indexed_at)))
            &&& members.contains(("files_indexed"@, JsonMemberView::Number(files_indexed)))
            &&& members.contains(("semantic"@, JsonMemberView::Flag(semantic)))
        }),
{
    let members = workspace_object(root, indexed_at, files_indexed, semantic);
    assert(members[0] == ("workspace"@, JsonMemberView::Text(root)));
    assert(members[1] == ("indexed_at"@, JsonMemberView::Text(indexed_at)));
    assert(members[2] == ("files_indexed"@, JsonMemberView::Number(files_indexed)));
    assert(members[3] == ("semantic"@, JsonMemberView::Flag(semantic)));
}

/// The semantic flag is what the text says under `semantic`, if it is JSON and has a flag there.
pub proof fn law_semantic_flag_is_read_by_its_name(text: Seq<char>)
    ensures
        parsed_flags(text) is None ==> semantic_flag(text) is None,
        parsed_flags(text) matches Some(flags) ==> (semantic_flag(text) is Some <==> flags.contains_key("semantic"@)),
        parsed_flags(text) matches Some(flags) ==> flags.contains_key("semantic"@) ==> semantic_flag(text) == Some(
            flags["semantic"@],
        ),
{
}

/// Members as values have the names and the values of the members, in their order.
pub proof fn law_members_hold_names_and_values(members: Seq<(String, JsonMember)>)
    ensures
        member_views(members).len() == members.len(),
        forall|i: int|
            0 <= i < members.len() ==> member_views(members)[i].0 == (#[trigger] members[i]).0@ && match members[i].1 {
                JsonMember::Text(s) => member_views(members)[i].1 == JsonMemberView::Text(s@),
                JsonMember::Number(n) => member_views(members)[i].1 == JsonMemberView::Number(n),
                JsonMember::Flag(b) => member_views(members)[i].1 == JsonMemberView::Flag(b),
            },
{
}

} // verus!
