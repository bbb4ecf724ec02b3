//! The settings of a VS Code workspace that connect the extension with the router.
//!
//! Four settings are written; all others, and the comments, stay as they are. The list of
//! accounts is written empty: the router looks the pool up by the target.

use jsonc_parser::cst::{CstInputValue, CstRootNode};
use vstd::prelude::*;

use crate::text::{chars_of, concat2, concat3, hex_char, hex_digit, trim, trimmed};

verus! {

/// A JSON document with its comments and white space.
#[verifier::external_type_specification]
#[verifier::external_body]
pub struct ExCstRootNode(jsonc_parser::cst::CstRootNode);

/// The members of the object that a document holds: names, and values as they are written.
/// A document without a value counts as an empty object; one with another value has none.
pub uninterp spec fn root_members(root: CstRootNode) -> Option<Seq<(Seq<char>, Seq<char>)>>;

/// The comments of a document that stand outside the values of its members, as they are
/// written. One inside such a value is part of that value.
pub uninterp spec fn root_comments(root: CstRootNode) -> Seq<Seq<char>>;

/// Whether a document is made of the nodes that the parser makes, and of members that were
/// written into it with complete escapes. Then its text has the same members and comments.
pub uninterp spec fn well_formed(root: CstRootNode) -> bool;

/// The members and the comments of the document that a text stands for, or the words of the
/// error.
pub uninterp spec fn document(s: Seq<char>) -> Result<
    (Option<Seq<(Seq<char>, Seq<char>)>>, Seq<Seq<char>>),
    Seq<char>,
>;

/// The text of a document.
pub uninterp spec fn document_text(root: CstRootNode) -> Seq<char>;

/// Whether a text stands for a document: it has the same members and comments.
pub open spec fn stands_for(s: Seq<char>, root: CstRootNode) -> bool {
    match document(s) {
        Ok((members, comments)) => members == root_members(root) && comments == root_comments(
            root,
        ),
        Err(_) => false,
    }
}

/// A string in quotes, with a backslash before each quote in it.
pub open spec fn quoted(s: Seq<char>) -> Seq<char> {
    seq!['"'] + escaped(s) + seq!['"']
}

/// A string with a backslash before each quote.
pub open spec fn escaped(s: Seq<char>) -> Seq<char>
    decreases s.len(),
{
    if s.len() == 0 {
        Seq::empty()
    } else if s[0] == '"' {
        seq!['\\', '"'] + escaped(s.drop_first())
    } else {
        seq![s[0]] + escaped(s.drop_first())
    }
}

/// Whether a character is a control character of ASCII.
pub open spec fn control_char(c: char) -> bool {
    '\0' <= c <= '\u{1f}'
}

/// How a character other than a quote is written in a JSON string: a backslash is doubled, a
/// control character is written by its number.
pub open spec fn slashed_char(c: char) -> Seq<char> {
    if c == '\\' {
        seq!['\\', '\\']
    } else if control_char(c) {
        seq!['\\', 'u', '0', '0', hex_digit(c as int / 16), hex_digit(c as int % 16)]
    } else {
        seq![c]
    }
}

/// A string with its backslashes and control characters as in JSON, and its quotes as they
/// are.
pub open spec fn slashed(s: Seq<char>) -> Seq<char>
    decreases s.len(),
{
    if s.len() == 0 {
        Seq::empty()
    } else {
        slashed_char(s[0]) + slashed(s.drop_first())
    }
}

/// A string as it is written in JSON.
pub open spec fn json_string(s: Seq<char>) -> Seq<char> {
    quoted(slashed(s))
}

/// The number of a lower-case hexadecimal digit.
pub open spec fn hex_value(c: char) -> int {
    if '0' <= c <= '9' {
        c as int - '0' as int
    } else {
        c as int - 'a' as int + 10
    }
}

/// What the text between the quotes of a JSON string stands for, where it has no other escapes
/// than those for quotes, backslashes and control characters.
pub open spec fn string_value(body: Seq<char>) -> Option<Seq<char>>
    decreases body.len(),
{
    if body.len() == 0 {
        Some(Seq::empty())
    } else if body[0] == '"' {
        None
    } else if body[0] != '\\' {
        match string_value(body.drop_first()) {
            Some(rest) => Some(seq![body[0]] + rest),
            None => None,
        }
    } else if body.len() >= 2 && (body[1] == '"' || body[1] == '\\') {
        match string_value(body.skip(2)) {
            Some(rest) => Some(seq![body[1]] + rest),
            None => None,
        }
    } else if body.len() >= 6 && body[1] == 'u' && body[2] == '0' && body[3] == '0' {
        match string_value(body.skip(6)) {
            Some(rest) => Some(
                seq![(hex_value(body[4]) * 16 + hex_value(body[5])) as char] + rest,
            ),
            None => None,
        }
    } else {
        None
    }
}

proof fn lemma_escaped_concat(a: Seq<char>, b: Seq<char>)
    ensures
        escaped(a + b) == escaped(a) + escaped(b),
    decreases a.len(),
{
    if a.len() == 0 {
        assert(a + b == b);
    } else {
        assert((a + b).drop_first() == a.drop_first() + b);
        lemma_escaped_concat(a.drop_first(), b);
    }
}

/// A backslash and the letter of a control character hold no quote, so they stay.
proof fn lemma_escaped_without_quotes(s: Seq<char>)
    requires
        !s.contains('"'),
    ensures
        escaped(s) == s,
    decreases s.len(),
{
    if s.len() > 0 {
        assert(s.contains(s[0]));
        assert forall|c: char| s.drop_first().contains(c) implies s.contains(c) by {
            let i = choose|i: int| 0 <= i < s.drop_first().len() && s.drop_first()[i] == c;
            assert(s[i + 1] == c);
        }
        lemma_escaped_without_quotes(s.drop_first());
    }
}

/// What is written between the quotes of a JSON string stands for the string itself.
pub proof fn written_string_is_read_back(s: Seq<char>)
    ensures
        string_value(escaped(slashed(s))) == Some(s),
    decreases s.len(),
{
    if s.len() > 0 {
        let c = s[0];
        let rest = s.drop_first();
        written_string_is_read_back(rest);
        lemma_escaped_concat(slashed_char(c), slashed(rest));
        let head = escaped(slashed_char(c));
        let tail = escaped(slashed(rest));
        assert(s == seq![c] + rest);
        if c == '"' {
            reveal_with_fuel(escaped, 2);
            assert(seq!['"'].drop_first().len() == 0);
            assert(head == seq!['\\', '"']);
            assert((head + tail).skip(2) == tail);
        } else {
            let n = slashed_char(c);
            assert(!n.contains('"')) by {
                if n.contains('"') {
                    let i = choose|i: int| 0 <= i < n.len() && n[i] == '"';
                    assert(n[i] == '"');
                }
            }
            lemma_escaped_without_quotes(n);
            if c == '\\' {
                assert((head + tail).skip(2) == tail);
            } else if control_char(c) {
                assert((head + tail).skip(6) == tail);
                assert(hex_value(hex_digit(c as int / 16)) == c as int / 16);
                assert(hex_value(hex_digit(c as int % 16)) == c as int % 16);
            } else {
                assert((head + tail).drop_first() == tail);
            }
        }
    }
}

/// Writes the backslashes and control characters of a string as in JSON.
pub fn escape_text(s: &str) -> (r: String)
    ensures
        r@ == slashed(s@),
{
    let v: Vec<char> = chars_of(s);
    let mut r: String = String::new();
    let mut i: usize = 0;
    assert(v@.skip(0) == s@);
    while i < v.len()
        invariant
            i <= v@.len(),
            r@ + slashed(v@.skip(i as int)) == slashed(s@),
        decreases v@.len() - i,
    {
        let c: char = v[i];
        let ghost before = r@;
        let ghost rest = v@.skip(i as int);
        assert(rest[0] == c);
        assert(rest.drop_first() == v@.skip(i + 1));
        if c == '\\' {
            r.push('\\');
            r.push('\\');
        } else if '\0' <= c && c <= '\u{1f}' {
            let b: u8 = c as u8;
            r.push('\\');
            r.push('u');
            r.push('0');
            r.push('0');
            r.push(hex_char(b / 16));
            r.push(hex_char(b % 16));
        } else {
            r.push(c);
        }
        assert(r@ == before + slashed_char(c));
        assert(r@ + slashed(v@.skip(i + 1)) == before + slashed(rest));
        i = i + 1;
    }
    assert(v@.skip(i as int).len() == 0);
    r
}

/// Whether a member has the name.
pub open spec fn has_member(members: Seq<(Seq<char>, Seq<char>)>, name: Seq<char>) -> bool {
    exists|i: int| 0 <= i < members.len() && (#[trigger] members[i]).0 == name
}

/// The place of the first member with the name, where there is one.
pub open spec fn member_place(members: Seq<(Seq<char>, Seq<char>)>, name: Seq<char>) -> int
    decreases members.len(),
{
    if members.len() == 0 || members[0].0 == name {
        0
    } else {
        1 + member_place(members.drop_first(), name)
    }
}

/// `CstRootNode::parse`: the document of a text, or the words of the error.
#[verifier::external_body]
fn parse_document(raw: &str) -> (r: Result<CstRootNode, String>)
    ensures
        match r {
            Ok(root) => well_formed(root) && stands_for(raw@, root),
            Err(why) => document(raw@) matches Err(e) && e == why@,
        },
{
    CstRootNode::parse(raw, &jsonc_parser::ParseOptions::default()).map_err(|e| e.to_string())
}

/// `CstRootNode::object_value_or_create`: whether the document is an object, which it becomes
/// where it has no value yet.
#[verifier::external_body]
fn ensure_object(root: &mut CstRootNode) -> (r: bool)
    requires
        well_formed(*old(root)),
    ensures
        r == (root_members(*old(root)) is Some),
        root_members(*final(root)) == root_members(*old(root)),
        root_comments(*final(root)) == root_comments(*old(root)),
        well_formed(*final(root)),
{
    root.object_value_or_create().is_some()
}

/// `CstObject::get`: whether the document's object has a member with the name.
#[verifier::external_body]
fn member_exists(root: &CstRootNode, name: &str) -> (r: bool)
    ensures
        r == (root_members(*root) matches Some(m) && has_member(m, name@)),
{
    root.object_value().is_some_and(|object| object.get(name).is_some())
}

/// `CstObjectProp::set_value` with a string: it becomes the value of the first member with the
/// name, in quotes and with a backslash before each quote. The comments outside the value that
/// is replaced stay.
#[verifier::external_body]
fn set_text(root: &mut CstRootNode, name: &str, text: &str)
    requires
        well_formed(*old(root)),
        root_members(*old(root)) matches Some(m) && has_member(m, name@),
        exists|s: Seq<char>| text@ == #[trigger] slashed(s),
    ensures
        root_members(*old(root)) matches Some(m) && root_members(*final(root)) == Some(
            m.update(member_place(m, name@), (name@, quoted(text@))),
        ),
        root_comments(*final(root)) == root_comments(*old(root)),
        well_formed(*final(root)),
{
    if let Some(property) = root.object_value().and_then(|object| object.get(name)) {
        property.set_value(CstInputValue::from(text));
    }
}

/// `CstObjectProp::set_value` with an empty list: a pair of brackets becomes the value of the
/// first member with the name. The comments outside the value that is replaced stay.
#[verifier::external_body]
fn set_empty_list(root: &mut CstRootNode, name: &str)
    requires
        well_formed(*old(root)),
        root_members(*old(root)) matches Some(m) && has_member(m, name@),
    ensures
        root_members(*old(root)) matches Some(m) && root_members(*final(root)) == Some(
            m.update(member_place(m, name@), (name@, seq!['[', ']'])),
        ),
        root_comments(*final(root)) == root_comments(*old(root)),
        well_formed(*final(root)),
{
    if let Some(property) = root.object_value().and_then(|object| object.get(name)) {
        property.set_value(CstInputValue::Array(Vec::new()));
    }
}

/// `CstObject::append` with a string: a member is added at the end, its value in quotes and
/// with a backslash before each quote. The name is written without more escapes than that, so
/// it must have no backslash.
#[verifier::external_body]
fn append_text(root: &mut CstRootNode, name: &str, text: &str)
    requires
        well_formed(*old(root)),
        root_members(*old(root)) is Some,
        !name@.contains('\\'),
        exists|s: Seq<char>| text@ == #[trigger] slashed(s),
    ensures
        root_members(*old(root)) matches Some(m) && root_members(*final(root)) == Some(
            m.push((name@, quoted(text@))),
        ),
        root_comments(*final(root)) == root_comments(*old(root)),
        well_formed(*final(root)),
{
    if let Some(object) = root.object_value_or_create() {
        object.append(name, CstInputValue::from(text));
    }
}

/// `CstObject::append` with an empty list: a member is added at the end, its value a pair of
/// brackets. The name must have no backslash.
#[verifier::external_body]
fn append_empty_list(root: &mut CstRootNode, name: &str)
    requires
        well_formed(*old(root)),
        root_members(*old(root)) is Some,
        !name@.contains('\\'),
    ensures
        root_members(*old(root)) matches Some(m) && root_members(*final(root)) == Some(
            m.push((name@, seq!['[', ']'])),
        ),
        root_comments(*final(root)) == root_comments(*old(root)),
        well_formed(*final(root)),
{
    if let Some(object) = root.object_value_or_create() {
        object.append(name, CstInputValue::Array(Vec::new()));
    }
}

/// `CstRootNode::to_string`: the text of the document, in which the same members and comments
/// are found.
#[verifier::external_body]
fn print_document(root: &CstRootNode) -> (r: String)
    requires
        well_formed(*root),
    ensures
        r@ == document_text(*root),
        stands_for(r@, *root),
{
    root.to_string()
}

/// Why no settings are written.
#[derive(Debug, PartialEq, Eq)]
pub enum SettingsError {
    RelativeWorkspace,
    /// The workspace with this name is no directory.
    NoWorkspace(String),
    NoCommand,
    /// The settings are no JSON; the text says why.
    Parse(String),
    NotAnObject,
}

/// The message of an error; `path` is the settings file.
pub open spec fn settings_message(e: SettingsError, path: Seq<char>) -> Seq<char> {
    match e {
        SettingsError::RelativeWorkspace => "VS Code 工作区必须使用绝对路径"@,
        SettingsError::NoWorkspace(name) => "VS Code 工作区不存在或不是目录："@ + name@,
        SettingsError::NoCommand => "ACP 路由器路径不能为空"@,
        SettingsError::Parse(why) => "解析 "@ + path + " 失败: "@ + why@,
        SettingsError::NotAnObject => path + " 的根节点必须是 JSON 对象"@,
    }
}

impl SettingsError {
    /// The message of the error; `path` is the settings file.
    pub fn message(&self, path: &str) -> (r: String)
        ensures
            r@ == settings_message(*self, path@),
    {
        match self {
            SettingsError::RelativeWorkspace => "VS Code 工作区必须使用绝对路径".to_string(),
            SettingsError::NoWorkspace(name) => concat2(
                "VS Code 工作区不存在或不是目录：",
                name.as_str(),
            ),
            SettingsError::NoCommand => "ACP 路由器路径不能为空".to_string(),
            SettingsError::Parse(why) => {
                let head: String = concat3("解析 ", path, " 失败: ");
                concat2(head.as_str(), why.as_str())
            },
            SettingsError::NotAnObject => concat2(path, " 的根节点必须是 JSON 对象"),
        }
    }
}

/// Checks the workspace and the command of the router, and gives the command without white
/// space around it. `absolute` and `directory` say what the path of the workspace is.
pub fn check_workspace(workspace: &str, absolute: bool, directory: bool, command: &str) -> (r:
    Result<String, SettingsError>)
    ensures
        if !absolute {
            r == Err::<String, SettingsError>(SettingsError::RelativeWorkspace)
        } else if !directory {
            r matches Err(SettingsError::NoWorkspace(name)) && name@ == workspace@
        } else if trimmed(command@).len() == 0 {
            r == Err::<String, SettingsError>(SettingsError::NoCommand)
        } else {
            r matches Ok(text) && text@ == trimmed(command@)
        },
{
    if !absolute {
        return Err(SettingsError::RelativeWorkspace);
    }
    if !directory {
        return Err(SettingsError::NoWorkspace(workspace.to_string()));
    }
    let text: String = trim(command);
    if text.as_str().is_empty() {
        Err(SettingsError::NoCommand)
    } else {
        Ok(text)
    }
}

/// The members with a value under a name: the first member of that name gets it, else it is
/// added at the end.
pub open spec fn with_member(
    members: Seq<(Seq<char>, Seq<char>)>,
    name: Seq<char>,
    value: Seq<char>,
) -> Seq<(Seq<char>, Seq<char>)> {
    if has_member(members, name) {
        members.update(member_place(members, name), (name, value))
    } else {
        members.push((name, value))
    }
}

/// The members with the four settings of the extension.
pub open spec fn with_settings(
    members: Seq<(Seq<char>, Seq<char>)>,
    command: Seq<char>,
    target: Seq<char>,
) -> Seq<(Seq<char>, Seq<char>)> {
    let a = with_member(members, "kimifork.backend"@, json_string("externalAcp"@));
    let b = with_member(a, "kimifork.acpCommand"@, json_string(command));
    let c = with_member(b, "kimifork.acpTarget"@, json_string(target));
    with_member(c, "kimifork.acpAccounts"@, seq!['[', ']'])
}

/// Gives a setting a text.
fn update_text(root: &mut CstRootNode, name: &str, text: &str)
    requires
        well_formed(*old(root)),
        root_members(*old(root)) is Some,
        !name@.contains('\\'),
    ensures
        root_members(*old(root)) matches Some(m) && root_members(*final(root)) == Some(
            with_member(m, name@, json_string(text@)),
        ),
        root_comments(*final(root)) == root_comments(*old(root)),
        well_formed(*final(root)),
{
    let escaped: String = escape_text(text);
    if member_exists(root, name) {
        set_text(root, name, escaped.as_str());
    } else {
        append_text(root, name, escaped.as_str());
    }
}

/// Gives a setting the empty list.
fn update_empty_list(root: &mut CstRootNode, name: &str)
    requires
        well_formed(*old(root)),
        root_members(*old(root)) is Some,
        !name@.contains('\\'),
    ensures
        root_members(*old(root)) matches Some(m) && root_members(*final(root)) == Some(
            with_member(m, name@, seq!['[', ']']),
        ),
        root_comments(*final(root)) == root_comments(*old(root)),
        well_formed(*final(root)),
{
    if member_exists(root, name) {
        set_empty_list(root, name);
    } else {
        append_empty_list(root, name);
    }
}

/// The names of the four settings have no backslash.
proof fn lemma_setting_names()
    ensures
        !"kimifork.backend"@.contains('\\'),
        !"kimifork.acpCommand"@.contains('\\'),
        !"kimifork.acpTarget"@.contains('\\'),
        !"kimifork.acpAccounts"@.contains('\\'),
{
    reveal_strlit("kimifork.backend");
    reveal_strlit("kimifork.acpCommand");
    reveal_strlit("kimifork.acpTarget");
    reveal_strlit("kimifork.acpAccounts");
}

/// The document of a settings text, which is blank where there is none.
pub fn read_settings(raw: &str) -> (r: Result<CstRootNode, SettingsError>)
    ensures
        match document(raw@) {
            Ok((members, comments)) => {
                &&& r matches Ok(root)
                &&& well_formed(root)
                &&& root_members(root) == members
                &&& root_comments(root) == comments
            },
            Err(why) => r matches Err(SettingsError::Parse(words)) && words@ == why,
        },
{
    match parse_document(raw) {
        Ok(root) => Ok(root),
        Err(why) => Err(SettingsError::Parse(why)),
    }
}

/// Gives a document the four settings of the extension. Nothing is changed where the document
/// is no object.
pub fn apply_settings(root: &mut CstRootNode, command: &str, target: &str) -> (r: Result<
    (),
    SettingsError,
>)
    requires
        well_formed(*old(root)),
    ensures
        match root_members(*old(root)) {
            Some(m) => r is Ok && root_members(*final(root)) == Some(
                with_settings(m, command@, target@),
            ),
            None => r == Err::<(), SettingsError>(SettingsError::NotAnObject) && root_members(
                *final(root),
            ) is None,
        },
        root_comments(*final(root)) == root_comments(*old(root)),
        well_formed(*final(root)),
{
    if !ensure_object(root) {
        return Err(SettingsError::NotAnObject);
    }
    proof {
        lemma_setting_names();
    }
    update_text(root, "kimifork.backend", "externalAcp");
    update_text(root, "kimifork.acpCommand", command);
    update_text(root, "kimifork.acpTarget", target);
    update_empty_list(root, "kimifork.acpAccounts");
    Ok(())
}

/// The text of the workspace settings with the four settings of the extension. `raw` is the
/// text of the file, blank where there is none. What is read from the text again are the
/// members with the four settings, and the comments as they were.
pub fn vscode_settings(raw: &str, command: &str, target: &str) -> (r: Result<
    String,
    SettingsError,
>)
    ensures
        match document(raw@) {
            Err(why) => r matches Err(SettingsError::Parse(words)) && words@ == why,
            Ok((None, _)) => r == Err::<String, SettingsError>(SettingsError::NotAnObject),
            Ok((Some(m), comments)) => {
                &&& r matches Ok(text)
                &&& document(text@) matches Ok(d)
                &&& d == (Some(with_settings(m, command@, target@)), comments)
                &&& exists|root: CstRootNode|
                    well_formed(root) && text@ == #[trigger] document_text(root)
            },
        },
{
    let mut root: CstRootNode = match read_settings(raw) {
        Ok(root) => root,
        Err(e) => {
            return Err(e);
        },
    };
    match apply_settings(&mut root, command, target) {
        Ok(_) => Ok(print_document(&root)),
        Err(e) => Err(e),
    }
}

/// The value of a setting: that of the first member with the name.
pub open spec fn setting(members: Seq<(Seq<char>, Seq<char>)>, name: Seq<char>) -> Option<
    Seq<char>,
> {
    if has_member(members, name) {
        Some(members[member_place(members, name)].1)
    } else {
        None
    }
}

/// What `member_place` finds.
proof fn lemma_member_place(members: Seq<(Seq<char>, Seq<char>)>, name: Seq<char>)
    requires
        has_member(members, name),
    ensures
        0 <= member_place(members, name) < members.len(),
        members[member_place(members, name)].0 == name,
        forall|i: int|
            0 <= i < member_place(members, name) ==> (#[trigger] members[i]).0 != name,
    decreases members.len(),
{
    if members[0].0 != name {
        let rest = members.drop_first();
        let i = choose|i: int| 0 <= i < members.len() && (#[trigger] members[i]).0 == name;
        assert(rest[i - 1].0 == name);
        lemma_member_place(rest, name);
        let k = member_place(rest, name);
        assert(members[k + 1] == rest[k]);
        assert forall|j: int| 0 <= j < member_place(members, name) implies (
        #[trigger] members[j]).0 != name by {
            if j > 0 {
                assert(rest[j - 1] == members[j]);
            }
        }
    }
}

/// A place that holds the name with none before it is the one that `member_place` finds.
proof fn lemma_place_is(members: Seq<(Seq<char>, Seq<char>)>, name: Seq<char>, i: int)
    requires
        0 <= i < members.len(),
        members[i].0 == name,
        forall|k: int| 0 <= k < i ==> (#[trigger] members[k]).0 != name,
    ensures
        has_member(members, name),
        member_place(members, name) == i,
{
    lemma_member_place(members, name);
}

/// Giving one setting a value gives it that value and changes no other, and nothing is
/// removed or moved.
pub proof fn one_setting_is_written(
    members: Seq<(Seq<char>, Seq<char>)>,
    name: Seq<char>,
    value: Seq<char>,
    other: Seq<char>,
)
    ensures
        setting(with_member(members, name, value), name) == Some(value),
        other != name ==> setting(with_member(members, name, value), other) == setting(
            members,
            other,
        ),
        members.len() <= with_member(members, name, value).len() <= members.len() + 1,
        forall|i: int|
            0 <= i < members.len() ==> (#[trigger] with_member(members, name, value)[i]).0
                == members[i].0,
{
    let after = with_member(members, name, value);
    if has_member(members, name) {
        lemma_member_place(members, name);
        lemma_place_is(after, name, member_place(members, name));
    } else {
        lemma_place_is(after, name, members.len() as int);
    }
    if other != name {
        if has_member(members, other) {
            lemma_member_place(members, other);
            lemma_place_is(after, other, member_place(members, other));
        } else if has_member(after, other) {
            let i = choose|i: int| 0 <= i < after.len() && (#[trigger] after[i]).0 == other;
            assert(members[i].0 == other);
        }
    }
}

/// Writing a setting that has its value already changes nothing.
proof fn lemma_written_again(members: Seq<(Seq<char>, Seq<char>)>, name: Seq<char>, value: Seq<char>)
    requires
        setting(members, name) == Some(value),
    ensures
        with_member(members, name, value) == members,
{
    lemma_member_place(members, name);
    assert(with_member(members, name, value) == members);
}

/// The names of the four settings are different.
proof fn lemma_settings_differ()
    ensures
        "kimifork.backend"@ != "kimifork.acpCommand"@,
        "kimifork.backend"@ != "kimifork.acpTarget"@,
        "kimifork.backend"@ != "kimifork.acpAccounts"@,
        "kimifork.acpCommand"@ != "kimifork.acpTarget"@,
        "kimifork.acpCommand"@ != "kimifork.acpAccounts"@,
        "kimifork.acpTarget"@ != "kimifork.acpAccounts"@,
{
    reveal_strlit("kimifork.backend");
    reveal_strlit("kimifork.acpCommand");
    reveal_strlit("kimifork.acpTarget");
    reveal_strlit("kimifork.acpAccounts");
    assert("kimifork.backend"@.len() == 16);
    assert("kimifork.acpCommand"@.len() == 19);
    assert("kimifork.acpTarget"@.len() == 18);
    assert("kimifork.acpAccounts"@.len() == 20);
}

/// Only the four settings of the extension are written: they have their values, every other
/// setting keeps its own, and the list of accounts is empty, so that the router looks the
/// pool up by the target.
pub proof fn only_four_settings_change(
    members: Seq<(Seq<char>, Seq<char>)>,
    command: Seq<char>,
    target: Seq<char>,
    other: Seq<char>,
)
    ensures
        ({
            let after = with_settings(members, command, target);
            &&& setting(after, "kimifork.backend"@) == Some(json_string("externalAcp"@))
            &&& setting(after, "kimifork.acpCommand"@) == Some(json_string(command))
            &&& setting(after, "kimifork.acpTarget"@) == Some(json_string(target))
            &&& setting(after, "kimifork.acpAccounts"@) == Some(seq!['[', ']'])
            &&& other != "kimifork.backend"@ && other != "kimifork.acpCommand"@ && other
                != "kimifork.acpTarget"@ && other != "kimifork.acpAccounts"@ ==> setting(
                after,
                other,
            ) == setting(members, other)
        }),
{
    lemma_settings_differ();
    let k1 = "kimifork.backend"@;
    let k2 = "kimifork.acpCommand"@;
    let k3 = "kimifork.acpTarget"@;
    let k4 = "kimifork.acpAccounts"@;
    let a = with_member(members, k1, json_string("externalAcp"@));
    let b = with_member(a, k2, json_string(command));
    let c = with_member(b, k3, json_string(target));
    one_setting_is_written(members, k1, json_string("externalAcp"@), other);
    one_setting_is_written(a, k2, json_string(command), other);
    one_setting_is_written(a, k2, json_string(command), k1);
    one_setting_is_written(b, k3, json_string(target), other);
    one_setting_is_written(b, k3, json_string(target), k1);
    one_setting_is_written(b, k3, json_string(target), k2);
    one_setting_is_written(c, k4, seq!['[', ']'], other);
    one_setting_is_written(c, k4, seq!['[', ']'], k1);
    one_setting_is_written(c, k4, seq!['[', ']'], k2);
    one_setting_is_written(c, k4, seq!['[', ']'], k3);
}

/// The text that a setting holds, where its value is a string.
pub open spec fn text_setting(members: Seq<(Seq<char>, Seq<char>)>, name: Seq<char>) -> Option<
    Seq<char>,
> {
    match setting(members, name) {
        Some(value) => if value.len() >= 2 && value[0] == '"' && value.last() == '"' {
            string_value(value.subrange(1, value.len() - 1))
        } else {
            None
        },
        None => None,
    }
}

/// The settings of the extension read back as they were given: the command and the target
/// character for character, whatever quotes, backslashes and control characters they have.
pub proof fn written_settings_are_read_back(
    members: Seq<(Seq<char>, Seq<char>)>,
    command: Seq<char>,
    target: Seq<char>,
)
    ensures
        text_setting(with_settings(members, command, target), "kimifork.backend"@) == Some(
            "externalAcp"@,
        ),
        text_setting(with_settings(members, command, target), "kimifork.acpCommand"@) == Some(
            command,
        ),
        text_setting(with_settings(members, command, target), "kimifork.acpTarget"@) == Some(
            target,
        ),
{
    only_four_settings_change(members, command, target, "kimifork.backend"@);
    lemma_string_between_quotes("externalAcp"@);
    lemma_string_between_quotes(command);
    lemma_string_between_quotes(target);
}

proof fn lemma_string_between_quotes(s: Seq<char>)
    ensures
        json_string(s).len() >= 2,
        json_string(s)[0] == '"',
        json_string(s).last() == '"',
        string_value(json_string(s).subrange(1, json_string(s).len() - 1)) == Some(s),
{
    written_string_is_read_back(s);
    let body = escaped(slashed(s));
    assert(json_string(s).len() == body.len() + 2);
    assert(json_string(s).subrange(1, json_string(s).len() - 1) == body);
}

/// Writing the same settings again changes nothing.
pub proof fn settings_are_written_once(
    members: Seq<(Seq<char>, Seq<char>)>,
    command: Seq<char>,
    target: Seq<char>,
)
    ensures
        with_settings(with_settings(members, command, target), command, target) == with_settings(
            members,
            command,
            target,
        ),
{
    let after = with_settings(members, command, target);
    only_four_settings_change(members, command, target, "kimifork.backend"@);
    lemma_written_again(after, "kimifork.backend"@, json_string("externalAcp"@));
    lemma_written_again(after, "kimifork.acpCommand"@, json_string(command));
    lemma_written_again(after, "kimifork.acpTarget"@, json_string(target));
    lemma_written_again(after, "kimifork.acpAccounts"@, seq!['[', ']']);
}

/// The command of the router: the binary that lies beside this one, where it does, else its
/// name.
pub fn default_router_command(windows: bool, beside: Option<String>) -> (r: String)
    ensures
        match beside {
            Some(path) => r == path,
            None => r@ == router_binary(windows),
        },
{
    match beside {
        Some(path) => path,
        None => router_binary_name(windows),
    }
}

/// The name of the router's binary.
pub open spec fn router_binary(windows: bool) -> Seq<char> {
    if windows {
        "kimi-subscription-router.exe"@
    } else {
        "kimi-subscription-router"@
    }
}

/// The name of the router's binary.
pub fn router_binary_name(windows: bool) -> (r: String)
    ensures
        r@ == router_binary(windows),
{
    if windows {
        "kimi-subscription-router.exe".to_string()
    } else {
        "kimi-subscription-router".to_string()
    }
}

/// The value of a setting is that of the first member of its name, and there is none where no
/// member has the name.
pub proof fn first_member_of_a_name_counts(
    members: Seq<(Seq<char>, Seq<char>)>,
    name: Seq<char>,
    k: int,
)
    requires
        0 <= k <= members.len(),
        forall|i: int| 0 <= i < k ==> (#[trigger] members[i]).0 != name,
    ensures
        k < members.len() && members[k].0 == name ==> setting(members, name) == Some(members[k].1),
        k == members.len() ==> setting(members, name) is None,
{
    if k < members.len() && members[k].0 == name {
        lemma_place_is(members, name, k);
    }
}

/// A setting that is there is written over at its place; one that is not there is put behind the
/// others. The other members stay as they are.
pub proof fn written_member_takes_one_place(
    members: Seq<(Seq<char>, Seq<char>)>,
    name: Seq<char>,
    value: Seq<char>,
    k: int,
)
    requires
        0 <= k <= members.len(),
        forall|i: int| 0 <= i < k ==> (#[trigger] members[i]).0 != name,
        k < members.len() ==> members[k].0 == name,
    ensures
        ({
            let after = with_member(members, name, value);
            &&& after.len() == (if k < members.len() {
                members.len()
            } else {
                members.len() + 1
            })
            &&& after[k] == (name, value)
            &&& forall|i: int| 0 <= i < members.len() && i != k ==> #[trigger] after[i] == members[i]
        }),
{
    if k < members.len() {
        lemma_place_is(members, name, k);
    }
}

/// A string of JSON holds no control character, and between its quotes no quote without a
/// backslash before it. What needs no escape is written as it is.
pub proof fn strings_are_written_without_controls(s: Seq<char>, i: int)
    ensures
        json_string(s)[0] == '"' && json_string(s).last() == '"',
        0 <= i < json_string(s).len() ==> json_string(s)[i] as int >= 32,
        0 < i < json_string(s).len() - 1 && json_string(s)[i] == '"' ==> json_string(s)[i - 1]
            == '\\',
        (forall|k: int|
            0 <= k < s.len() ==> (#[trigger] s[k]) as int >= 32 && s[k] != '"' && s[k] != '\\')
            ==> json_string(s) == seq!['"'] + s + seq!['"'],
{
    let t = slashed(s);
    let body = escaped(t);
    lemma_string_between_quotes(s);
    lemma_slashed_plain(s);
    lemma_escaped_quotes(t);
    let whole = json_string(s);
    assert(whole =~= seq!['"'] + body + seq!['"']);
    if 0 < i < whole.len() - 1 {
        assert(whole[i] == body[i - 1]);
        if body[i - 1] == '"' {
            assert(i - 1 > 0 && body[i - 2] == '\\');
        }
    }
    if forall|k: int|
        0 <= k < s.len() ==> (#[trigger] s[k]) as int >= 32 && s[k] != '"' && s[k] != '\\' {
        lemma_slashed_same(s);
        assert(!s.contains('"'));
        lemma_escaped_without_quotes(s);
    }
}

proof fn lemma_slashed_same(s: Seq<char>)
    requires
        forall|k: int| 0 <= k < s.len() ==> (#[trigger] s[k]) as int >= 32 && s[k] != '\\',
    ensures
        slashed(s) == s,
    decreases s.len(),
{
    if s.len() > 0 {
        let rest = s.drop_first();
        assert forall|k: int| 0 <= k < rest.len() implies (#[trigger] rest[k]) as int >= 32
            && rest[k] != '\\' by {
            assert(rest[k] == s[k + 1]);
        }
        lemma_slashed_same(rest);
        assert(s[0] as int >= 32);
        assert(seq![s[0]] + rest =~= s);
    } else {
        assert(s =~= Seq::empty());
    }
}

proof fn lemma_slashed_char_plain(c: char, k: int)
    requires
        0 <= k < slashed_char(c).len(),
    ensures
        slashed_char(c)[k] as int >= 32,
{
    if control_char(c) {
        let (high, low) = (c as int / 16, c as int % 16);
        assert(0 <= high < 16 && 0 <= low < 16);
        assert(hex_digit(high) as int >= 48 && hex_digit(low) as int >= 48);
    } else {
        assert(c as int >= 32);
    }
}

proof fn lemma_slashed_plain(s: Seq<char>)
    ensures
        forall|k: int| 0 <= k < slashed(s).len() ==> (#[trigger] slashed(s)[k]) as int >= 32,
    decreases s.len(),
{
    if s.len() > 0 {
        let a = slashed_char(s[0]);
        let b = slashed(s.drop_first());
        lemma_slashed_plain(s.drop_first());
        assert forall|k: int| 0 <= k < slashed(s).len() implies (#[trigger] slashed(s)[k]) as int
            >= 32 by {
            if k >= a.len() {
                assert(slashed(s)[k] == b[k - a.len()]);
            } else {
                assert(slashed(s)[k] == a[k]);
                lemma_slashed_char_plain(s[0], k);
            }
        }
    }
}

proof fn lemma_escaped_quotes(s: Seq<char>)
    requires
        forall|k: int| 0 <= k < s.len() ==> (#[trigger] s[k]) as int >= 32,
    ensures
        forall|k: int| 0 <= k < escaped(s).len() ==> (#[trigger] escaped(s)[k]) as int >= 32,
        forall|k: int|
            0 <= k < escaped(s).len() && #[trigger] escaped(s)[k] == '"' ==> k > 0 && escaped(s)[k
                - 1] == '\\',
    decreases s.len(),
{
    if s.len() > 0 {
        let rest = s.drop_first();
        assert forall|k: int| 0 <= k < rest.len() implies (#[trigger] rest[k]) as int >= 32 by {
            assert(rest[k] == s[k + 1]);
        }
        lemma_escaped_quotes(rest);
        let e = escaped(rest);
        let n: int = if s[0] == '"' {
            2
        } else {
            1
        };
        assert(s[0] as int >= 32);
        assert forall|k: int| 0 <= k < escaped(s).len() implies (#[trigger] escaped(s)[k]) as int
            >= 32 && (escaped(s)[k] == '"' ==> k > 0 && escaped(s)[k - 1] == '\\') by {
            if k >= n {
                assert(escaped(s)[k] == e[k - n]);
                if e[k - n] == '"' {
                    assert(escaped(s)[k - 1] == e[k - n - 1]);
                }
            }
        }
    }
}

/// The read-back of a string takes a character that needs no escape as it is, and an escaped one
/// for what it stands for.
pub proof fn escapes_stand_for_their_characters(c: char, rest: Seq<char>, value: Seq<char>)
    requires
        string_value(rest) == Some(value),
    ensures
        c != '"' && c != '\\' ==> string_value(seq![c] + rest) == Some(seq![c] + value),
        c == '"' ==> string_value(seq![c] + rest) is None,
        c == '"' || c == '\\' ==> string_value(seq!['\\', c] + rest) == Some(seq![c] + value),
        string_value(Seq::empty()) == Some(Seq::<char>::empty()),
{
    let a = seq![c] + rest;
    assert(a.drop_first() =~= rest);
    let b = seq!['\\', c] + rest;
    assert(b.skip(2) =~= rest);
    assert(b[0] == '\\' && b[1] == c);
}

/// The program of Windows has the name of the other systems' with an ending.
pub proof fn windows_adds_an_ending()
    ensures
        router_binary(true) == router_binary(false) + ".exe"@,
        router_binary(false) == "kimi-subscription-router"@,
{
    reveal_strlit("kimi-subscription-router.exe");
    reveal_strlit("kimi-subscription-router");
    reveal_strlit(".exe");
    assert("kimi-subscription-router"@ + ".exe"@ =~= "kimi-subscription-router.exe"@);
}

/// What is said of an error names the file where the file is at fault, and the workspace where
/// that is.
pub proof fn messages_name_what_is_at_fault(e: SettingsError, path: Seq<char>, other: Seq<char>)
    ensures
        e matches SettingsError::NoWorkspace(name) ==> settings_message(e, path)
            == "VS Code 工作区不存在或不是目录："@ + name@,
        e matches SettingsError::Parse(why) ==> settings_message(e, path) == "解析 "@ + path
            + " 失败: "@ + why@,
        e is NotAnObject ==> settings_message(e, path) == path + " 的根节点必须是 JSON 对象"@,
        e is RelativeWorkspace ==> settings_message(e, path)
            == "VS Code 工作区必须使用绝对路径"@,
        e is NoCommand ==> settings_message(e, path) == "ACP 路由器路径不能为空"@,
{
}

} // verus!
