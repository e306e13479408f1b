use vstd::prelude::*;

use crate::text::{
    chars_of, copy_str, find, find_from_exec, lines, lines_spec, starts_with, starts_with_exec,
    str_eq, string_from, sub_vec, to_lowercase, trim, trim_vec, unicode_lowercase,
};

verus! {

/// A reusable prompt template loaded from a markdown file with YAML frontmatter.
pub struct Skill {
    pub name: String,
    pub description: String,
    pub content: String,
    pub user_invocable: bool,
    /// The file the skill was read from.
    pub source_path: String,
}

/// Why a skill file could not be read.
#[derive(Debug, Clone, Copy, PartialEq, Eq, Structural)]
pub enum SkillError {
    /// The file does not start with `---`.
    MissingFrontmatter,
    /// No `---` closes the frontmatter.
    MissingClosingFrontmatter,
}

/// Registry that holds all loaded skills and provides lookup.
pub struct SkillRegistry {
    pub skills: Vec<Skill>,
}

/// Two names are the same skill name: equal once lower-cased.
pub open spec fn same_name(a: Seq<char>, b: Seq<char>) -> bool {
    unicode_lowercase(a) == unicode_lowercase(b)
}

/// The first skill, from index `i` on, named `name` (ignoring case).
pub open spec fn skill_pos(skills: Seq<Skill>, name: Seq<char>, i: int) -> Option<int>
    decreases skills.len() - i,
{
    if i < 0 || i >= skills.len() {
        None
    } else if same_name(skills[i].name@, name) {
        Some(i)
    } else {
        skill_pos(skills, name, i + 1)
    }
}

/// The skills among the first `n` that users may invoke, in order.
pub open spec fn invocable_upto(skills: Seq<Skill>, n: int) -> Seq<Skill>
    decreases n,
{
    if n <= 0 {
        Seq::empty()
    } else {
        let r = invocable_upto(skills, n - 1);
        if skills[n - 1].user_invocable {
            r.push(skills[n - 1])
        } else {
            r
        }
    }
}

/// The skills among the first `n` whose name differs from `name` (ignoring case).
pub open spec fn others_upto(skills: Seq<Skill>, name: Seq<char>, n: int) -> Seq<Skill>
    decreases n,
{
    if n <= 0 {
        Seq::empty()
    } else {
        let r = others_upto(skills, name, n - 1);
        if !same_name(skills[n - 1].name@, name) {
            r.push(skills[n - 1])
        } else {
            r
        }
    }
}

/// Whether two strings are equal once lower-cased.
fn same_name_exec(a: &str, b: &str) -> (r: bool)
    ensures
        r == same_name(a@, b@),
{
    let la = to_lowercase(a);
    let lb = to_lowercase(b);
    str_eq(la.as_str(), lb.as_str())
}

impl SkillRegistry {
    pub fn new() -> (r: Self)
        ensures
            r.skills@.len() == 0,
    {
        SkillRegistry { skills: Vec::new() }
    }

    /// Adds a skill; one with the same name (ignoring case) is replaced:
    /// a later skill overrides an earlier one.
    pub fn add(&mut self, skill: Skill)
        ensures
            final(self).skills@ == others_upto(
                old(self).skills@,
                skill.name@,
                old(self).skills@.len() as int,
            ).push(skill),
    {
        let mut kept: Vec<Skill> = Vec::new();
        let mut rest: Vec<Skill> = Vec::new();
        std::mem::swap(&mut rest, &mut self.skills);
        let ghost orig = rest@;
        assert(orig.len() == rest.len());
        let mut i: usize = 0;
        assert(orig.skip(0) =~= orig);
        while rest.len() > 0
            invariant
                i <= orig.len(),
                orig.len() == rest.len() + i,
                orig.len() <= usize::MAX,
                rest@ == orig.skip(i as int),
                kept@ == others_upto(orig, skill.name@, i as int),
            decreases rest.len(),
        {
            let s = rest.remove(0);
            assert(s == orig[i as int]);
            if !same_name_exec(s.name.as_str(), skill.name.as_str()) {
                kept.push(s);
            }
            i = i + 1;
            assert(rest@ =~= orig.skip(i as int));
        }
        kept.push(skill);
        self.skills = kept;
    }

    /// Find a skill by name (case-insensitive).
    pub fn find(&self, name: &str) -> (r: Option<&Skill>)
        ensures
            match skill_pos(self.skills@, name@, 0) {
                Some(i) => r == Some(&self.skills@[i]),
                None => r is None,
            },
    {
        let mut i: usize = 0;
        while i < self.skills.len()
            invariant
                i <= self.skills.len(),
                skill_pos(self.skills@, name@, 0) == skill_pos(self.skills@, name@, i as int),
            decreases self.skills.len() - i,
        {
            if same_name_exec(self.skills[i].name.as_str(), name) {
                return Some(&self.skills[i]);
            }
            i = i + 1;
        }
        None
    }

    /// List all user-invocable skills.
    pub fn user_invocable(&self) -> (r: Vec<&Skill>)
        ensures
            r@.len() == invocable_upto(self.skills@, self.skills@.len() as int).len(),
            forall|k: int|
                0 <= k < r@.len() ==> *r@[k] == invocable_upto(
                    self.skills@,
                    self.skills@.len() as int,
                )[k],
    {
        let mut r: Vec<&Skill> = Vec::new();
        let mut i: usize = 0;
        while i < self.skills.len()
            invariant
                i <= self.skills.len(),
                r@.len() == invocable_upto(self.skills@, i as int).len(),
                forall|k: int|
                    0 <= k < r@.len() ==> *r@[k] == invocable_upto(self.skills@, i as int)[k],
            decreases self.skills.len() - i,
        {
            if self.skills[i].user_invocable {
                r.push(&self.skills[i]);
            }
            i = i + 1;
        }
        r
    }

    /// List all skills.
    pub fn all(&self) -> (r: &[Skill])
        ensures
            r@ == self.skills@,
    {
        self.skills.as_slice()
    }
}

impl Default for SkillRegistry {
    fn default() -> (r: Self)
        ensures
            r.skills@.len() == 0,
    {
        Self::new()
    }
}

// ---------------------------------------------------------------------------
// Skill files
// ---------------------------------------------------------------------------

/// The name, description and invocability read from the first `n`
/// frontmatter lines (each trimmed): the last `name:`, `description:` and
/// `user_invocable:` entries win.
pub open spec fn frontmatter_fields(ls: Seq<Seq<char>>, n: int) -> (Seq<char>, Seq<char>, bool)
    decreases n,
{
    if n <= 0 {
        (Seq::empty(), Seq::empty(), false)
    } else {
        let (name, desc, inv) = frontmatter_fields(ls, n - 1);
        let line = trim(ls[n - 1]);
        if starts_with(line, "name:"@) {
            (trim(line.skip(5)), desc, inv)
        } else if starts_with(line, "description:"@) {
            (name, trim(line.skip(12)), inv)
        } else if starts_with(line, "user_invocable:"@) {
            (name, desc, trim(line.skip(15)) == "true"@)
        } else {
            (name, desc, inv)
        }
    }
}

/// What reading a skill file gives: its frontmatter is what stands between
/// the leading `---` and the next `---`; the body is the rest, trimmed; a
/// missing name falls back to the file's stem (or `unknown`).
pub open spec fn parsed_skill(content: Seq<char>, stem: Option<Seq<char>>) -> Result<
    (Seq<char>, Seq<char>, Seq<char>, bool),
    SkillError,
> {
    if !starts_with(content, "---"@) {
        Err(SkillError::MissingFrontmatter)
    } else {
        match find(content.skip(3), "---"@) {
            None => Err(SkillError::MissingClosingFrontmatter),
            Some(end) => {
                let front = content.subrange(3, end + 3);
                let body = trim(content.skip(end + 6));
                let ls = lines_spec(front);
                let (name, desc, inv) = frontmatter_fields(ls, ls.len() as int);
                let name = if name.len() == 0 {
                    match stem {
                        Some(s) => s,
                        None => "unknown"@,
                    }
                } else {
                    name
                };
                Ok((name, desc, body, inv))
            },
        }
    }
}

/// Parse a skill from the text of a markdown file with YAML frontmatter.
/// `file_stem` is the file's name without extension, if it has one that is
/// valid UTF-8; `source_path` is where the file lies.
pub fn parse_skill(content: &str, file_stem: Option<&str>, source_path: &str) -> (r: Result<Skill, SkillError>)
    ensures
        match parsed_skill(
            content@,
            match file_stem {
                Some(s) => Some(s@),
                None => None,
            },
        ) {
            Ok((name, desc, body, inv)) => r matches Ok(s) && s.name@ == name && s.description@
                == desc && s.content@ == body && s.user_invocable == inv && s.source_path@
                == source_path@,
            Err(e) => r == Err::<Skill, SkillError>(e),
        },
{
    let c = chars_of(content);
    let dashes = chars_of("---");
    proof {
        reveal_strlit("---");
    }
    if !starts_with_exec(&c, &dashes) {
        return Err(SkillError::MissingFrontmatter);
    }
    let after = sub_vec(&c, 3, c.len());
    assert(after@ =~= c@.skip(3));
    let end = match find_from_exec(&after, &dashes, 0) {
        Some(e) => e,
        None => {
            return Err(SkillError::MissingClosingFrontmatter);
        },
    };
    proof {
        crate::text::lemma_find_from(after@, dashes@, 0);
        assert(crate::text::occurs_at(after@, dashes@, end as int));
    }
    assert(end + 6 <= c.len());
    let front = sub_vec(&c, 3, end + 3);
    let body = trim_vec(&sub_vec(&c, end + 6, c.len()));
    assert(c@.subrange(end + 6, c.len() as int) =~= c@.skip(end + 6));
    let ls = lines(&front);
    let p_name = chars_of("name:");
    let p_desc = chars_of("description:");
    let p_inv = chars_of("user_invocable:");
    let truth = chars_of("true");
    let mut name: Vec<char> = Vec::new();
    let mut desc: Vec<char> = Vec::new();
    let mut inv = false;
    let mut i: usize = 0;
    while i < ls.len()
        invariant
            i <= ls.len(),
            p_name@ == "name:"@,
            p_desc@ == "description:"@,
            p_inv@ == "user_invocable:"@,
            truth@ == "true"@,
            (name@, desc@, inv) == frontmatter_fields(ls.deep_view(), i as int),
        decreases ls.len() - i,
    {
        proof {
            reveal_strlit("name:");
            reveal_strlit("description:");
            reveal_strlit("user_invocable:");
        }
        assert(ls.deep_view()[i as int] == ls[i as int]@);
        let line = trim_vec(&ls[i]);
        if starts_with_exec(&line, &p_name) {
            name = trim_vec(&sub_vec(&line, 5, line.len()));
            assert(line@.subrange(5, line@.len() as int) =~= line@.skip(5));
        } else if starts_with_exec(&line, &p_desc) {
            desc = trim_vec(&sub_vec(&line, 12, line.len()));
            assert(line@.subrange(12, line@.len() as int) =~= line@.skip(12));
        } else if starts_with_exec(&line, &p_inv) {
            let v = trim_vec(&sub_vec(&line, 15, line.len()));
            inv = crate::text::chars_eq(&v, &truth);
            assert(line@.subrange(15, line@.len() as int) =~= line@.skip(15));
        }
        i = i + 1;
    }
    let name_str = if name.len() == 0 {
        match file_stem {
            Some(s) => copy_str(s),
            None => copy_str("unknown"),
        }
    } else {
        string_from(&name)
    };
    Ok(
        Skill {
            name: name_str,
            description: string_from(&desc),
            content: string_from(&body),
            user_invocable: inv,
            source_path: copy_str(source_path),
        },
    )
}

// ---------------------------------------------------------------------------
// Laws
// ---------------------------------------------------------------------------

proof fn lemma_others_upto(skills: Seq<Skill>, name: Seq<char>, n: int)
    requires
        0 <= n <= skills.len(),
    ensures
        forall|k: int|
            0 <= k < others_upto(skills, name, n).len() ==> !same_name(
                (#[trigger] others_upto(skills, name, n)[k]).name@,
                name,
            ),
        others_upto(skills, name, n).len() <= n,
    decreases n,
{
    if n > 0 {
        lemma_others_upto(skills, name, n - 1);
    }
}

/// After a skill is added, looking up its name (in any case) finds it: a
/// later skill overrides an earlier one of the same name.
pub proof fn law_find_after_add(before: Seq<Skill>, skill: Skill, lookup: Seq<char>)
    requires
        same_name(lookup, skill.name@),
    ensures
        ({
            let after = others_upto(before, skill.name@, before.len() as int).push(skill);
            skill_pos(after, lookup, 0) == Some(after.len() - 1)
        }),
{
    let kept = others_upto(before, skill.name@, before.len() as int);
    let after = kept.push(skill);
    lemma_others_upto(before, skill.name@, before.len() as int);
    lemma_skill_pos_skips(after, lookup, skill.name@, 0);
}

proof fn lemma_skill_pos_skips(after: Seq<Skill>, lookup: Seq<char>, name: Seq<char>, i: int)
    requires
        after.len() > 0,
        same_name(lookup, name),
        same_name(after.last().name@, name),
        forall|k: int| 0 <= k < after.len() - 1 ==> !same_name((#[trigger] after[k]).name@, name),
        0 <= i <= after.len() - 1,
    ensures
        skill_pos(after, lookup, i) == Some(after.len() - 1),
    decreases after.len() - i,
{
    if i < after.len() - 1 {
        assert(!same_name(after[i].name@, name));
        lemma_skill_pos_skips(after, lookup, name, i + 1);
    }
}

} // verus!
