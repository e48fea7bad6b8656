//! The report of the environment check.

use vstd::prelude::*;

verus! {

/// What the environment check found.
pub struct DoctorReport {
    /// The repository root, when one was found.
    pub git_root: Option<String>,
    /// Its git directory.
    pub git_dir: Option<String>,
    /// Its exclude file.
    pub exclude_path: Option<String>,
    /// Whether the directory of the exclude file exists.
    pub exclude_writable: Option<bool>,
    /// Whether a symbolic link could be created.
    pub symlink_ok: bool,
    /// A remark about the platform, empty when there is none.
    pub platform_note: String,
}

/// An optional value as shown in the report: `-` when absent.
pub open spec fn or_dash(v: Option<String>) -> Seq<char> {
    match v {
        Some(s) => s@,
        None => "-"@,
    }
}

/// The lines of the report, for a check started from `start`.
pub open spec fn doctor_lines(r: DoctorReport, start: Seq<char>) -> Seq<Seq<char>> {
    let head = match (r.git_root, r.exclude_writable) {
        (Some(root), Some(w)) => seq![
            "repo root:   "@ + root@,
            "git dir:     "@ + or_dash(r.git_dir),
            "exclude:     "@ + or_dash(r.exclude_path),
            "exclude dir: "@ + if w {
                "present"@
            } else {
                "MISSING (git repo incomplete?)"@
            },
        ],
        _ => seq![
            "no git repository found from "@ + start,
            "note: link/unlink/status need a git repo (unless --no-exclude is used)"@,
        ],
    };
    let sym = "symlinks:    "@ + if r.symlink_ok {
        "OK"@
    } else {
        "FAILED"@
    };
    if r.platform_note@.len() > 0 {
        head.push(sym).push("note: "@ + r.platform_note@)
    } else {
        head.push(sym)
    }
}

fn line(a: &str, b: &str) -> (r: String)
    ensures
        r@ == a@ + b@,
{
    let mut r = String::from_str(a);
    r.append(b);
    r
}

fn dash_or(v: &Option<String>) -> (r: String)
    ensures
        r@ == or_dash(*v),
{
    match v {
        Some(s) => s.clone(),
        None => String::from_str("-"),
    }
}

impl DoctorReport {
    /// The lines the report is printed as, for a check started from `start`.
    pub fn summary_lines(&self, start: &str) -> (ls: Vec<String>)
        ensures
            ls@.map_values(|s: String| s@) == doctor_lines(*self, start@),
            self.git_root is Some && self.exclude_writable == Some(true) ==> ls@[3]@
                == "exclude dir: "@ + "present"@,
            self.git_root is Some && self.exclude_writable == Some(false) ==> ls@[3]@
                == "exclude dir: "@ + "MISSING (git repo incomplete?)"@,
    {
        let mut ls: Vec<String> = Vec::new();
        match (&self.git_root, &self.exclude_writable) {
            (Some(root), Some(w)) => {
                ls.push(line("repo root:   ", root.as_str()));
                ls.push(line("git dir:     ", dash_or(&self.git_dir).as_str()));
                ls.push(line("exclude:     ", dash_or(&self.exclude_path).as_str()));
                ls.push(
                    line(
                        "exclude dir: ",
                        if *w {
                            "present"
                        } else {
                            "MISSING (git repo incomplete?)"
                        },
                    ),
                );
            },
            _ => {
                ls.push(line("no git repository found from ", start));
                ls.push(
                    String::from_str(
                        "note: link/unlink/status need a git repo (unless --no-exclude is used)",
                    ),
                );
            },
        }
        ls.push(
            line(
                "symlinks:    ",
                if self.symlink_ok {
                    "OK"
                } else {
                    "FAILED"
                },
            ),
        );
        if crate::text::chars_of(self.platform_note.as_str()).len() > 0 {
            ls.push(line("note: ", self.platform_note.as_str()));
        }
        assert(ls@.map_values(|s: String| s@) =~= doctor_lines(*self, start@));
        proof {
            if self.git_root is Some && self.exclude_writable is Some {
                assert(ls@[3]@ == ls@.map_values(|s: String| s@)[3]);
            }
        }
        ls
    }
}


/// The report says what the check found. With a repository (and the
/// exclude directory looked at), it shows the root, the git directory and
/// the exclude file (`-` when unknown), and the exclude directory as
/// `present` exactly when it exists and `MISSING` exactly when it does not;
/// otherwise it says that no repository was found from `start`. Then
/// whether links can be made (`OK` exactly when they can), and a note
/// line exactly when there is a platform remark.
pub proof fn law_report_says_what_was_found(r: DoctorReport, start: Seq<char>)
    ensures
        ({
            let ls = doctor_lines(r, start);
            let found = r.git_root is Some && r.exclude_writable is Some;
            let n: int = if found {
                4
            } else {
                2
            };
            &&& ls.len() == n + 1 + (if r.platform_note@.len() > 0 {
                1int
            } else {
                0int
            })
            &&& found ==> ls[0] == "repo root:   "@ + r.git_root->0@
            &&& found ==> ls[1] == "git dir:     "@ + (match r.git_dir {
                Some(g) => g@,
                None => "-"@,
            })
            &&& found ==> ls[2] == "exclude:     "@ + (match r.exclude_path {
                Some(e) => e@,
                None => "-"@,
            })
            &&& found && r.exclude_writable == Some(true) ==> ls[3] == "exclude dir: "@ + "present"@
            &&& found && r.exclude_writable == Some(false) ==> ls[3]
                == "exclude dir: "@ + "MISSING (git repo incomplete?)"@
            &&& !found ==> ls[0] == "no git repository found from "@ + start
            &&& ls[n] == "symlinks:    "@ + (if r.symlink_ok {
                "OK"@
            } else {
                "FAILED"@
            })
            &&& r.platform_note@.len() > 0 ==> ls[n + 1] == "note: "@ + r.platform_note@
        }),
{
    let ls = doctor_lines(r, start);
    let found = r.git_root is Some && r.exclude_writable is Some;
    let sym = "symlinks:    "@ + if r.symlink_ok {
        "OK"@
    } else {
        "FAILED"@
    };
    if found {
        let head = seq![
            "repo root:   "@ + r.git_root->0@,
            "git dir:     "@ + or_dash(r.git_dir),
            "exclude:     "@ + or_dash(r.exclude_path),
            "exclude dir: "@ + if r.exclude_writable->0 {
                "present"@
            } else {
                "MISSING (git repo incomplete?)"@
            },
        ];
        assert(head.len() == 4);
        assert(head.push(sym)[4] == sym);
        assert(head.push(sym).push("note: "@ + r.platform_note@)[5] == "note: "@ + r.platform_note@);
        assert(head.push(sym).push("note: "@ + r.platform_note@)[4] == sym);
        assert(head.push(sym)[3] == head[3]);
        assert(head.push(sym).push("note: "@ + r.platform_note@)[3] == head[3]);
    } else {
        let head = seq![
            "no git repository found from "@ + start,
            "note: link/unlink/status need a git repo (unless --no-exclude is used)"@,
        ];
        assert(head.push(sym)[2] == sym);
        assert(head.push(sym).push("note: "@ + r.platform_note@)[3] == "note: "@ + r.platform_note@);
        assert(head.push(sym).push("note: "@ + r.platform_note@)[2] == sym);
    }
}

} // verus!
