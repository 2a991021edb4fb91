//! Registering the binary as the handler for `brp://` links: the desktop entry on Linux and the
//! per-user URL class on Windows, built here as text; writing them is the caller's part.
use vstd::prelude::*;

use crate::text::{chars_of, concat, owned, push_char, str_eq};

verus! {

/// The handler-only desktop entry, under the user's applications directory.
pub const DESKTOP_FILE: &'static str = "brp.desktop";

/// The MIME type the scheme is registered under.
pub const SCHEME_MIME: &'static str = "x-scheme-handler/brp";

/// What comes before the quoted executable in the desktop entry.
pub const DESKTOP_HEAD: &'static str = "[Desktop Entry]\nType=Application\nName=brp\nComment=Peer-to-peer screen sharing\nExec=";

/// What comes after the quoted executable in the desktop entry.
pub const DESKTOP_TAIL: &'static str = " join %u\nTerminal=false\nNoDisplay=true\nMimeType=x-scheme-handler/brp;\n";

/// The escaping the `Exec` key needs inside its quotes: `"`, `` ` ``, and `$` get two
/// backslashes before them and a backslash gets three more, after both of the desktop entry
/// specification's rules (quoting, then string escapes) are applied.
pub open spec fn exec_escaped(s: Seq<char>) -> Seq<char>
    decreases s.len(),
{
    if s.len() == 0 {
        s
    } else {
        let c = s.last();
        let before = exec_escaped(s.drop_last());
        if c == '"' || c == '`' || c == '$' {
            before + seq!['\\', '\\', c]
        } else if c == '\\' {
            before + seq!['\\', '\\', '\\', c]
        } else {
            before.push(c)
        }
    }
}

/// A path quoted for an `Exec` key.
pub open spec fn exec_quoted(s: Seq<char>) -> Seq<char> {
    seq!['"'] + exec_escaped(s) + seq!['"']
}

/// Quotes a path for an `Exec` key.
pub fn quote_exec(path: &str) -> (q: String)
    ensures
        q@ == exec_quoted(path@),
{
    let mut quoted = String::new();
    push_char(&mut quoted, '"');
    let v = chars_of(path);
    let mut i: usize = 0;
    assert(v@.take(0) =~= Seq::<char>::empty());
    while i < v.len()
        invariant
            i <= v@.len(),
            v@ == path@,
            quoted@ == seq!['"'] + exec_escaped(v@.take(i as int)),
        decreases v@.len() - i,
    {
        let c = v[i];
        let ghost prefix = v@.take(i as int);
        if c == '"' || c == '`' || c == '$' {
            push_char(&mut quoted, '\\');
            push_char(&mut quoted, '\\');
        } else if c == '\\' {
            push_char(&mut quoted, '\\');
            push_char(&mut quoted, '\\');
            push_char(&mut quoted, '\\');
        }
        push_char(&mut quoted, c);
        proof {
            let next = v@.take(i + 1);
            assert(next.drop_last() =~= prefix);
            assert(next.last() == c);
            assert(quoted@ =~= seq!['"'] + exec_escaped(next));
        }
        i = i + 1;
    }
    assert(v@.take(v@.len() as int) =~= v@);
    push_char(&mut quoted, '"');
    quoted
}

/// The desktop entry that hands `brp://` links to `exe`. `NoDisplay` keeps it out of launchers:
/// started from a menu without a URL, `brp join` is a usage error.
pub fn desktop_entry(exe: &str) -> (entry: String)
    ensures
        entry@ == DESKTOP_HEAD@ + exec_quoted(exe@) + DESKTOP_TAIL@,
{
    let quoted = quote_exec(exe);
    let head = concat(DESKTOP_HEAD, quoted.as_str());
    concat(head.as_str(), DESKTOP_TAIL)
}

/// The per-user class for the scheme; no elevation is needed under the current user's hive.
pub const CLASS_KEY: &'static str = "Software\\Classes\\brp";

/// One string value under the class: `subkey` relative to the class (empty for the class
/// itself), `name` of the value (`None` for the default value), and its data.
#[derive(Debug, Clone, PartialEq, Eq)]
pub struct ClassValue {
    pub subkey: &'static str,
    pub name: Option<&'static str>,
    pub data: String,
}

/// The value a shell runs for a link: the quoted executable, `join`, and the quoted URL.
pub open spec fn open_command(exe: Seq<char>) -> Seq<char> {
    seq!['"'] + exe + "\" join \"%1\""@
}

/// The icon value: the quoted executable and its first icon.
pub open spec fn default_icon(exe: Seq<char>) -> Seq<char> {
    seq!['"'] + exe + "\",0"@
}

/// Everything the shell needs to hand `brp://` links to `exe`: what the scheme is, that it is a
/// URL protocol, an icon, and the command. Pure, so the shape is checked without a registry.
pub fn class_values(exe: &str) -> (values: Vec<ClassValue>)
    ensures
        values@.len() == 4,
        values@[0].subkey@ == ""@ && values@[0].name is None && values@[0].data@ == "URL:brp"@,
        values@[1].subkey@ == ""@ && values@[1].name == Some("URL Protocol") && values@[1].data@
            == Seq::<char>::empty(),
        values@[2].subkey@ == "DefaultIcon"@ && values@[2].name is None && values@[2].data@
            == default_icon(exe@),
        values@[3].subkey@ == "shell\\open\\command"@ && values@[3].name is None && values@[3].data@
            == open_command(exe@),
{
    let quote = "\"";
    let icon_head = concat(quote, exe);
    let icon = concat(icon_head.as_str(), "\",0");
    let command_head = concat(quote, exe);
    let command = concat(command_head.as_str(), "\" join \"%1\"");
    proof {
        reveal_strlit("\"");
    }
    assert(icon@ =~= default_icon(exe@));
    assert(command@ =~= open_command(exe@));
    let mut values: Vec<ClassValue> = Vec::new();
    values.push(ClassValue { subkey: "", name: None, data: "URL:brp".to_owned() });
    values.push(ClassValue { subkey: "", name: Some("URL Protocol"), data: String::new() });
    values.push(ClassValue { subkey: "DefaultIcon", name: None, data: icon });
    values.push(ClassValue { subkey: "shell\\open\\command", name: None, data: command });
    values
}

/// The entry text for `exe`.
pub open spec fn entry_text(exe: Seq<char>) -> Seq<char> {
    DESKTOP_HEAD@ + exec_quoted(exe) + DESKTOP_TAIL@
}

/// What installing the entry for `exe` writes, given the file's `current` content: nothing when
/// it already holds exactly this entry, else the entry. A moved executable rewrites it.
pub fn entry_to_write(current: Option<&str>, exe: &str) -> (w: Option<String>)
    ensures
        w is None <==> (current matches Some(c) && c@ == entry_text(exe@)),
        w matches Some(e) ==> e@ == entry_text(exe@),
{
    let entry = desktop_entry(exe);
    match current {
        Some(c) => {
            if str_eq(c, entry.as_str()) {
                None
            } else {
                Some(entry)
            }
        },
        None => Some(entry),
    }
}

/// The registry path of a class value: the class key itself, or the subkey under it.
pub fn class_value_path(subkey: &str) -> (path: String)
    ensures
        subkey@.len() == 0 ==> path@ == CLASS_KEY@,
        subkey@.len() > 0 ==> path@ == CLASS_KEY@ + "\\"@ + subkey@,
{
    if subkey.unicode_len() == 0 {
        owned(CLASS_KEY)
    } else {
        let head = concat(CLASS_KEY, "\\");
        concat(head.as_str(), subkey)
    }
}

} // verus!
