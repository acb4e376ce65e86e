use vstd::prelude::*;

verus! {

/// The character that separates the parts of a workload's execution instance
/// name.
pub open spec fn separator() -> char {
    '.'
}

/// `s` holds no separator.
pub open spec fn no_separator(s: Seq<char>) -> bool {
    forall|i: int| 0 <= i < s.len() ==> s[i] != separator()
}

/// The mathematical value of a workload execution instance name.
pub struct InstanceNameView {
    pub workload_name: Seq<char>,
    pub hash: Seq<char>,
    pub agent_name: Seq<char>,
}

impl InstanceNameView {
    /// No part holds the separator, so the name can be read back from its text.
    pub open spec fn is_valid(self) -> bool {
        &&& no_separator(self.workload_name)
        &&& no_separator(self.hash)
        &&& no_separator(self.agent_name)
    }

    /// The text of the name: `<workload>.<hash>.<agent>`.
    pub open spec fn text(self) -> Seq<char> {
        self.workload_name + seq![separator()] + self.hash + seq![separator()] + self.agent_name
    }
}

/// The name that a container name encodes, if it encodes one.
pub open spec fn parse_instance_name(s: Seq<char>) -> Option<InstanceNameView> {
    if exists|v: InstanceNameView| v.is_valid() && v.text() == s {
        Some(choose|v: InstanceNameView| v.is_valid() && v.text() == s)
    } else {
        None
    }
}

/// The separators in the text of a valid name stand exactly after the
/// workload name and after the hash.
proof fn lemma_separator_positions(v: InstanceNameView)
    requires
        v.is_valid(),
    ensures
        v.text().len() == v.workload_name.len() + v.hash.len() + v.agent_name.len() + 2,
        forall|k: int|
            0 <= k < v.text().len() ==> (#[trigger] v.text()[k] == separator() <==> (k
                == v.workload_name.len() || k == v.workload_name.len() + v.hash.len() + 1)),
{
    let w = v.workload_name;
    let h = v.hash;
    let a = v.agent_name;
    let t = v.text();
    assert forall|k: int| 0 <= k < t.len() implies (#[trigger] t[k] == separator() <==> (k
        == w.len() || k == w.len() + h.len() + 1)) by {
        if k < w.len() {
            assert(t[k] == w[k]);
        } else if k == w.len() {
            assert(t[k] == separator());
        } else if k < w.len() + 1 + h.len() {
            assert(t[k] == h[k - w.len() - 1]);
        } else if k == w.len() + 1 + h.len() {
            assert(t[k] == separator());
        } else {
            assert(t[k] == a[k - w.len() - h.len() - 2]);
        }
    }
}

/// A text is the text of at most one valid name.
pub proof fn lemma_instance_name_text_unique(v1: InstanceNameView, v2: InstanceNameView)
    requires
        v1.is_valid(),
        v2.is_valid(),
        v1.text() == v2.text(),
    ensures
        v1 == v2,
{
    lemma_separator_positions(v1);
    lemma_separator_positions(v2);
    let t = v1.text();
    let p1 = v1.workload_name.len() as int;
    let p2 = v2.workload_name.len() as int;
    assert(t[p1] == separator());
    assert(t[p2] == separator());
    assert(p1 == p2);
    let q1 = p1 + v1.hash.len() + 1;
    let q2 = p2 + v2.hash.len() + 1;
    assert(t[q1] == separator());
    assert(t[q2] == separator());
    assert(q1 == q2);
    assert(v1.workload_name =~= t.subrange(0, p1));
    assert(v2.workload_name =~= t.subrange(0, p1));
    assert(v1.hash =~= t.subrange(p1 + 1, q1));
    assert(v2.hash =~= t.subrange(p1 + 1, q1));
    assert(v1.agent_name =~= t.subrange(q1 + 1, t.len() as int));
    assert(v2.agent_name =~= t.subrange(q1 + 1, t.len() as int));
}

/// Reading back the text of a valid name gives that name.
pub proof fn lemma_instance_name_round_trip(v: InstanceNameView)
    requires
        v.is_valid(),
    ensures
        parse_instance_name(v.text()) == Some(v),
{
    let s = v.text();
    assert(v.is_valid() && v.text() == s);
    let c = choose|c: InstanceNameView| c.is_valid() && c.text() == s;
    lemma_instance_name_text_unique(c, v);
}


/// The name under which the agent runs a workload's container:
/// the workload name, a hash of its runtime configuration and the name of the
/// agent, joined by separators.
#[derive(Debug, Clone, PartialEq, Eq)]
pub struct WorkloadExecutionInstanceName {
    pub workload_name: String,
    pub hash: String,
    pub agent_name: String,
}

impl View for WorkloadExecutionInstanceName {
    type V = InstanceNameView;

    open spec fn view(&self) -> InstanceNameView {
        InstanceNameView {
            workload_name: self.workload_name@,
            hash: self.hash@,
            agent_name: self.agent_name@,
        }
    }
}

impl WorkloadExecutionInstanceName {
    /// Reads an instance name from a container name: the text must consist of
    /// exactly three parts separated by two separators.
    pub fn new(input: &str) -> (res: Option<WorkloadExecutionInstanceName>)
        ensures
            match res {
                Some(name) => parse_instance_name(input@) == Some(name@),
                None => parse_instance_name(input@) is None,
            },
    {
        let ghost s = input@;
        let n = input.unicode_len();
        let mut found: usize = 0;
        let mut first: usize = 0;
        let mut second: usize = 0;
        let mut i: usize = 0;
        while i < n
            invariant
                s == input@,
                n == s.len(),
                i <= n,
                found <= 2,
                found == 0 ==> no_separator(s.subrange(0, i as int)),
                found >= 1 ==> first < i && s[first as int] == separator() && no_separator(
                    s.subrange(0, first as int),
                ),
                found == 1 ==> no_separator(s.subrange(first + 1, i as int)),
                found == 2 ==> first < second < i && s[second as int] == separator()
                    && no_separator(s.subrange(first + 1, second as int)) && no_separator(
                    s.subrange(second + 1, i as int),
                ),
            decreases n - i,
        {
            let c = input.get_char(i);
            if c == '.' {
                if found == 0 {
                    first = i;
                } else if found == 1 {
                    second = i;
                } else {
                    proof {
                        Self::lemma_three_separators(s, first as int, second as int, i as int);
                    }
                    return None;
                }
                found = found + 1;
            }
            proof {
                if c != '.' {
                    if found == 0 {
                        assert(no_separator(s.subrange(0, i + 1)));
                    } else if found == 1 {
                        assert(no_separator(s.subrange(first + 1, i + 1)));
                    } else {
                        assert(no_separator(s.subrange(second + 1, i + 1)));
                    }
                } else {
                    if found == 1 {
                        assert(s.subrange(first + 1, i + 1) =~= Seq::<char>::empty());
                    } else {
                        assert(s.subrange(second + 1, i + 1) =~= Seq::<char>::empty());
                    }
                }
            }
            i = i + 1;
        }
        if found < 2 {
            proof {
                Self::lemma_fewer_separators(s, found as int, first as int);
            }
            return None;
        }
        let workload_name = input.substring_char(0, first).to_owned();
        let hash = input.substring_char(first + 1, second).to_owned();
        let agent_name = input.substring_char(second + 1, n).to_owned();
        let name = WorkloadExecutionInstanceName { workload_name, hash, agent_name };
        proof {
            assert(name@.text() =~= s);
            lemma_instance_name_round_trip(name@);
        }
        Some(name)
    }

    /// A text with three separators is no instance name.
    proof fn lemma_three_separators(s: Seq<char>, p: int, q: int, r: int)
        requires
            0 <= p < q < r < s.len(),
            s[p] == separator(),
            s[q] == separator(),
            s[r] == separator(),
        ensures
            parse_instance_name(s) is None,
    {
        if exists|v: InstanceNameView| v.is_valid() && v.text() == s {
            let v = choose|v: InstanceNameView| v.is_valid() && v.text() == s;
            lemma_separator_positions(v);
            assert(s[p] == v.text()[p]);
            assert(s[q] == v.text()[q]);
            assert(s[r] == v.text()[r]);
        }
    }

    /// A text with fewer than two separators is no instance name.
    proof fn lemma_fewer_separators(s: Seq<char>, found: int, first: int)
        requires
            0 <= found < 2,
            found == 0 ==> no_separator(s.subrange(0, s.len() as int)),
            found == 1 ==> 0 <= first < s.len() && no_separator(s.subrange(0, first))
                && no_separator(s.subrange(first + 1, s.len() as int)),
        ensures
            parse_instance_name(s) is None,
    {
        if exists|v: InstanceNameView| v.is_valid() && v.text() == s {
            let v = choose|v: InstanceNameView| v.is_valid() && v.text() == s;
            lemma_separator_positions(v);
            let p = v.workload_name.len() as int;
            let q = p + v.hash.len() + 1;
            assert(v.text()[p] == separator());
            assert(v.text()[q] == separator());
            if found == 0 {
                assert(s.subrange(0, s.len() as int)[p] == s[p]);
            } else {
                if p < first {
                    assert(s.subrange(0, first)[p] == s[p]);
                } else if p > first {
                    assert(s.subrange(first + 1, s.len() as int)[p - first - 1] == s[p]);
                } else {
                    assert(s.subrange(first + 1, s.len() as int)[q - first - 1] == s[q]);
                }
            }
        }
    }

    /// The text of the name, `<workload>.<hash>.<agent>`.
    pub fn to_string(&self) -> (res: String)
        ensures
            res@ == self@.text(),
    {
        let mut res = self.workload_name.clone();
        res.append(".");
        res.append(self.hash.as_str());
        res.append(".");
        res.append(self.agent_name.as_str());
        proof {
            reveal_strlit(".");
            assert(res@ =~= self@.text());
        }
        res
    }

    /// The name of the agent that runs the workload.
    pub fn agent_name(&self) -> (res: &str)
        ensures
            res@ == self@.agent_name,
    {
        self.agent_name.as_str()
    }

    /// The name of the workload.
    pub fn workload_name(&self) -> (res: &str)
        ensures
            res@ == self@.workload_name,
    {
        self.workload_name.as_str()
    }

    /// A builder whose parts are all empty.
    pub fn builder() -> (res: WorkloadExecutionInstanceNameBuilder)
        ensures
            res.workload_name@ == Seq::<char>::empty(),
            res.hash@ == Seq::<char>::empty(),
            res.agent_name@ == Seq::<char>::empty(),
    {
        WorkloadExecutionInstanceNameBuilder {
            workload_name: String::new(),
            hash: String::new(),
            agent_name: String::new(),
        }
    }

    /// The pattern by which podman finds the containers of an agent: names that
    /// end with a separator followed by the agent's name.
    pub fn get_agent_filter_regex(agent_name: &str) -> (res: String)
        ensures
            res@ == "[.]"@ + agent_name@ + "$"@,
    {
        let mut res = String::from_str("[.]");
        res.append(agent_name);
        res.append("$");
        res
    }
}

/// The hexadecimal SHA-256 digest of the UTF-8 bytes of a text, as
/// `sha256::digest` computes it.
pub uninterp spec fn sha256_hex(s: Seq<char>) -> Seq<char>;

/// `c` is a lower-case hexadecimal digit.
pub open spec fn is_lower_hex_digit(c: char) -> bool {
    ('0' <= c && c <= '9') || ('a' <= c && c <= 'f')
}

/// Calls `sha256::digest` on a string slice. Claimed: the result is
/// `sha256_hex` of the argument, 64 lower-case hexadecimal digits (the crate
/// hex-encodes the 32 bytes of the digest with `hex::encode`). The digest
/// itself is not stated.
#[verifier::external_body]
fn sha256_digest(input: &str) -> (res: String)
    ensures
        res@ == sha256_hex(input@),
        res@.len() == 64,
        forall|i: int| 0 <= i < 64 ==> is_lower_hex_digit(#[trigger] res@[i]),
{
    sha256::digest(input)
}

/// Builds a workload execution instance name part by part.
#[derive(Debug)]
pub struct WorkloadExecutionInstanceNameBuilder {
    pub workload_name: String,
    pub hash: String,
    pub agent_name: String,
}

impl WorkloadExecutionInstanceNameBuilder {
    /// Sets the workload's name.
    pub fn workload_name(self, workload_name: &str) -> (res: Self)
        ensures
            res.workload_name@ == workload_name@,
            res.hash == self.hash,
            res.agent_name == self.agent_name,
    {
        WorkloadExecutionInstanceNameBuilder {
            workload_name: workload_name.to_owned(),
            hash: self.hash,
            agent_name: self.agent_name,
        }
    }

    /// Sets the agent's name.
    pub fn agent_name(self, agent_name: &str) -> (res: Self)
        ensures
            res.agent_name@ == agent_name@,
            res.hash == self.hash,
            res.workload_name == self.workload_name,
    {
        WorkloadExecutionInstanceNameBuilder {
            workload_name: self.workload_name,
            hash: self.hash,
            agent_name: agent_name.to_owned(),
        }
    }

    /// Sets the hash to the SHA-256 digest of the workload's runtime
    /// configuration.
    pub fn config(self, config: &str) -> (res: Self)
        ensures
            res.hash@ == sha256_hex(config@),
            no_separator(res.hash@),
            res.workload_name == self.workload_name,
            res.agent_name == self.agent_name,
    {
        let hash = sha256_digest(config);
        proof {
            assert forall|i: int| 0 <= i < hash@.len() implies hash@[i] != separator() by {
                assert(is_lower_hex_digit(hash@[i]));
            }
        }
        WorkloadExecutionInstanceNameBuilder {
            workload_name: self.workload_name,
            hash,
            agent_name: self.agent_name,
        }
    }

    /// The name made of the parts set so far.
    pub fn build(self) -> (res: WorkloadExecutionInstanceName)
        ensures
            res.workload_name == self.workload_name,
            res.hash == self.hash,
            res.agent_name == self.agent_name,
    {
        WorkloadExecutionInstanceName {
            workload_name: self.workload_name,
            hash: self.hash,
            agent_name: self.agent_name,
        }
    }
}

} // verus!
