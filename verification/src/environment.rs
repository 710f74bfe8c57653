use crate::errors::OpError;
use crate::text;
use vstd::prelude::*;

verus! {

/// The registry credentials, held as plain text exactly as the credential
/// store supplies them. Storing the password in the clear mirrors the
/// store's format and is a known limitation, not something this library
/// papers over.
pub struct UserInfo {
    pub user: String,
    pub password: String,
}

/// The credential file's content: username line, then password line.
pub open spec fn config_text(user: Seq<char>, password: Seq<char>) -> Seq<char> {
    user + seq!['\n'] + password + seq!['\n']
}

/// One line as the credential parser sees it: a trailing carriage return
/// is not part of the value.
pub open spec fn strip_cr(l: Seq<char>) -> Seq<char> {
    if l.len() > 0 && l.last() == '\r' {
        l.drop_last()
    } else {
        l
    }
}

/// The lines of the credential file: split at newlines, a final empty
/// segment dropped, carriage returns stripped.
pub open spec fn config_lines(s: Seq<char>) -> Seq<Seq<char>> {
    let raw = text::split_lines(s);
    let cut = if raw.len() > 0 && raw.last().len() == 0 {
        raw.drop_last()
    } else {
        raw
    };
    cut.map_values(|l: Seq<char>| strip_cr(l))
}

fn strip_cr_exec(l: &str) -> (r: String)
    ensures
        r@ == strip_cr(l@),
{
    let n = l.unicode_len();
    if n > 0 && l.get_char(n - 1) == '\r' {
        let r = String::from_str(l.substring_char(0, n - 1));
        proof {
            assert(l@.subrange(0, n as int - 1) =~= l@.drop_last());
        }
        r
    } else {
        String::from_str(l)
    }
}

impl UserInfo {
    pub fn new(user: String, password: String) -> (r: Self)
        ensures
            r.user == user,
            r.password == password,
    {
        UserInfo { user, password }
    }

    /// Renders the two-line credential file that `save` persists.
    pub fn render_config(&self) -> (r: String)
        ensures
            r@ == config_text(self.user@, self.password@),
    {
        let mut out = String::new();
        out.append(self.user.as_str());
        out.append("\n");
        out.append(self.password.as_str());
        out.append("\n");
        proof {
            reveal_strlit("\n");
            assert("\n"@ =~= seq!['\n']);
            assert(out@ =~= config_text(self.user@, self.password@));
        }
        out
    }

    /// Reads credentials back from the file's content: the first line is
    /// the username, the second the password; anything shorter is invalid.
    pub fn parse_config(content: &str) -> (r: Result<UserInfo, OpError>)
        ensures
            match r {
                Ok(u) => {
                    &&& config_lines(content@).len() >= 2
                    &&& u.user@ == config_lines(content@)[0]
                    &&& u.password@ == config_lines(content@)[1]
                },
                Err(e) => {
                    &&& e == OpError::Validation
                    &&& config_lines(content@).len() < 2
                },
            },
    {
        let lines = text::split_into_lines(content);
        let mut m: usize = lines.len();
        proof {
            assert(lines.deep_view().len() == lines@.len());
        }
        if m > 0 && lines[m - 1].as_str().unicode_len() == 0 {
            proof {
                assert(lines.deep_view().last() == lines@[m - 1]@);
            }
            m -= 1;
        }
        let ghost raw = lines.deep_view();
        let ghost cut = if raw.len() > 0 && raw.last().len() == 0 {
            raw.drop_last()
        } else {
            raw
        };
        proof {
            assert(cut.len() == m);
            assert(config_lines(content@) == cut.map_values(|l: Seq<char>| strip_cr(l)));
            assert(config_lines(content@).len() == m);
        }
        if m < 2 {
            return Err(OpError::Validation);
        }
        let user = strip_cr_exec(lines[0].as_str());
        let password = strip_cr_exec(lines[1].as_str());
        proof {
            assert(cut[0] == raw[0]);
            assert(cut[1] == raw[1]);
            assert(raw[0] == lines@[0]@);
            assert(raw[1] == lines@[1]@);
            assert(config_lines(content@)[0] == strip_cr(cut[0]));
            assert(config_lines(content@)[1] == strip_cr(cut[1]));
        }
        Ok(UserInfo { user, password })
    }

    /// The pure core of the credential-update flow: the new credentials
    /// and the file content to persist for them.
    pub fn update_user(user: String, password: String) -> (r: (UserInfo, String))
        ensures
            r.0.user == user,
            r.0.password == password,
            r.1@ == config_text(user@, password@),
    {
        let info = UserInfo::new(user, password);
        let content = info.render_config();
        (info, content)
    }
}

// ===========================================================================
// Search-path bookkeeping
// ===========================================================================

/// The updated search-path list: `p` is put in front unless some entry
/// already equals it, in which case the list is unchanged.
pub fn updated_path_list(paths: &Vec<String>, p: &str) -> (r: Vec<String>)
    ensures
        paths.deep_view().contains(p@) ==> r.deep_view() == paths.deep_view(),
        !paths.deep_view().contains(p@) ==> r.deep_view() == seq![p@] + paths.deep_view(),
{
    let ghost deep = paths.deep_view();
    let mut found = false;
    let mut i: usize = 0;
    while i < paths.len()
        invariant
            0 <= i <= paths@.len(),
            deep == paths.deep_view(),
            found <==> exists|k: int| 0 <= k < i && deep[k] == p@,
        decreases paths@.len() - i,
    {
        proof {
            assert(deep[i as int] == paths@[i as int]@);
        }
        if text::str_eq(paths[i].as_str(), p) {
            found = true;
            proof {
                assert(0 <= i < i + 1 && deep[i as int] == p@);
            }
        }
        i += 1;
    }
    let mut out: Vec<String> = Vec::new();
    if !found {
        out.push(String::from_str(p));
    }
    let ghost head = out.deep_view();
    let mut j: usize = 0;
    while j < paths.len()
        invariant
            0 <= j <= paths@.len(),
            deep == paths.deep_view(),
            head.len() <= 1,
            out.deep_view() == head + deep.take(j as int),
        decreases paths@.len() - j,
    {
        let ghost pre = out.deep_view();
        out.push(paths[j].clone());
        proof {
            assert(out.deep_view() =~= pre.push(deep[j as int]));
            assert(head + deep.take(j as int + 1) =~= pre.push(deep[j as int]));
        }
        j += 1;
    }
    proof {
        assert(deep.take(paths@.len() as int) =~= deep);
        if found {
            assert(deep.contains(p@));
            assert(head =~= Seq::<Seq<char>>::empty());
            assert(out.deep_view() =~= deep);
        } else {
            assert(!deep.contains(p@));
            assert(head =~= seq![p@]);
        }
    }
    out
}

/// The search-path list joined with the platform's separator, ready to be
/// stored back into the environment.
pub fn join_path_list(paths: &Vec<String>, sep: &str) -> (r: String)
    ensures
        r@ == text::join_with(paths.deep_view(), sep@),
{
    let ghost deep = paths.deep_view();
    let mut out = String::new();
    let mut j: usize = 0;
    proof {
        assert(deep.take(0) =~= Seq::<Seq<char>>::empty());
        assert(out@ =~= text::join_with(deep.take(0), sep@));
    }
    while j < paths.len()
        invariant
            0 <= j <= paths@.len(),
            deep == paths.deep_view(),
            out@ == text::join_with(deep.take(j as int), sep@),
        decreases paths@.len() - j,
    {
        if j > 0 {
            out.append(sep);
        }
        out.append(paths[j].as_str());
        proof {
            text::lemma_join_with_snoc(deep.take(j as int), sep@, deep[j as int]);
            assert(deep.take(j as int).push(deep[j as int]) =~= deep.take(j as int + 1));
            if j == 0 {
                assert(deep.take(0).len() == 0);
                assert(out@ =~= text::join_with(deep.take(1), sep@));
            } else {
                assert(out@ =~= text::join_with(deep.take(j as int + 1), sep@));
            }
        }
        j += 1;
    }
    proof {
        assert(deep.take(paths@.len() as int) =~= deep);
    }
    out
}

/// Whether the package manager's repository list already names the
/// helper's repository, deciding whether `repo add` must run first.
pub fn repo_list_has_repo(repo_list_output: &str) -> (r: bool)
    ensures
        r == text::contains_seq(repo_list_output@, "med-helm"@),
{
    text::contains_substring(repo_list_output, "med-helm")
}

} // verus!
