//! Terminal profile assembly: the rules that turn the plain values read
//! out of a terminal emulator's preference file into profile records.

use vstd::prelude::*;

verus! {

/// One terminal profile.
pub struct ITermProfile {
    pub name: String,
    pub guid: String,
    pub command: Option<String>,
    pub working_directory: Option<String>,
}

/// The mathematical value of a terminal profile.
pub ghost struct ITermProfileView {
    pub name: Seq<char>,
    pub guid: Seq<char>,
    pub command: Option<Seq<char>>,
    pub working_directory: Option<Seq<char>>,
}

impl View for ITermProfile {
    type V = ITermProfileView;

    open spec fn view(&self) -> ITermProfileView {
        ITermProfileView {
            name: self.name@,
            guid: self.guid@,
            command: match self.command {
                Option::Some(ref c) => Option::Some(c@),
                Option::None => Option::None,
            },
            working_directory: match self.working_directory {
                Option::Some(ref w) => Option::Some(w@),
                Option::None => Option::None,
            },
        }
    }
}

impl DeepView for ITermProfile {
    type V = ITermProfileView;

    open spec fn deep_view(&self) -> ITermProfileView {
        self.view()
    }
}

/// An optional string kept only when non-empty.
pub open spec fn spec_nonempty(o: Option<Seq<char>>) -> Option<Seq<char>> {
    match o {
        Option::Some(s) => if s.len() > 0 {
            Option::Some(s)
        } else {
            Option::None
        },
        Option::None => Option::None,
    }
}

/// The command a profile runs: its start-up text when that is non-empty,
/// else its command when that is non-empty.
pub open spec fn spec_profile_command(
    initial_text: Option<Seq<char>>,
    command: Option<Seq<char>>,
) -> Option<Seq<char>> {
    match spec_nonempty(initial_text) {
        Option::Some(t) => Option::Some(t),
        Option::None => spec_nonempty(command),
    }
}

/// The profile a bookmark's fields denote: its name defaults to
/// `Unnamed`; a bookmark without a GUID denotes no profile.
pub open spec fn spec_build_profile(
    name: Option<Seq<char>>,
    guid: Option<Seq<char>>,
    initial_text: Option<Seq<char>>,
    command: Option<Seq<char>>,
    working_directory: Option<Seq<char>>,
) -> Option<ITermProfileView> {
    let g = match guid {
        Option::Some(s) => s,
        Option::None => Seq::empty(),
    };
    if g.len() == 0 {
        Option::None
    } else {
        Option::Some(
            ITermProfileView {
                name: match name {
                    Option::Some(n) => n,
                    Option::None => seq!['U', 'n', 'n', 'a', 'm', 'e', 'd'],
                },
                guid: g,
                command: spec_profile_command(initial_text, command),
                working_directory: spec_nonempty(working_directory),
            },
        )
    }
}

pub open spec fn spec_opt_str_view(o: Option<String>) -> Option<Seq<char>> {
    match o {
        Option::Some(s) => Option::Some(s@),
        Option::None => Option::None,
    }
}

fn nonempty_opt(o: Option<String>) -> (r: Option<String>)
    ensures
        spec_opt_str_view(r) == spec_nonempty(spec_opt_str_view(o)),
{
    match o {
        Option::Some(s) => {
            if s.as_str().unicode_len() > 0 {
                Option::Some(s)
            } else {
                Option::None
            }
        },
        Option::None => Option::None,
    }
}

/// Builds one terminal profile from a bookmark's plain fields, or nothing
/// when the bookmark carries no GUID.
pub fn build_iterm_profile(
    name: Option<String>,
    guid: Option<String>,
    initial_text: Option<String>,
    command: Option<String>,
    working_directory: Option<String>,
) -> (r: Option<ITermProfile>)
    ensures
        match r {
            Option::Some(p) => spec_build_profile(
                spec_opt_str_view(name),
                spec_opt_str_view(guid),
                spec_opt_str_view(initial_text),
                spec_opt_str_view(command),
                spec_opt_str_view(working_directory),
            ) == Option::Some(p@),
            Option::None => spec_build_profile(
                spec_opt_str_view(name),
                spec_opt_str_view(guid),
                spec_opt_str_view(initial_text),
                spec_opt_str_view(command),
                spec_opt_str_view(working_directory),
            ) is None,
        },
{
    let g: String = match guid {
        Option::Some(s) => s,
        Option::None => {
            let e = String::new();
            e
        },
    };
    if g.as_str().unicode_len() == 0 {
        proof {
            assert(g@.len() == 0);
        }
        return Option::None;
    }
    let n: String = match name {
        Option::Some(s) => s,
        Option::None => {
            let mut v: Vec<char> = Vec::new();
            v.push('U');
            v.push('n');
            v.push('n');
            v.push('a');
            v.push('m');
            v.push('e');
            v.push('d');
            proof {
                assert(v@ =~= seq!['U', 'n', 'n', 'a', 'm', 'e', 'd']);
            }
            crate::text::chars_to_string(&v)
        },
    };
    let cmd: Option<String> = match nonempty_opt(initial_text) {
        Option::Some(t) => Option::Some(t),
        Option::None => nonempty_opt(command),
    };
    let wd = nonempty_opt(working_directory);
    Option::Some(ITermProfile { name: n, guid: g, command: cmd, working_directory: wd })
}

} // verus!
