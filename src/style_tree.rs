use vstd::prelude::*;
use vstd::string::*;

verus! {

/// A node of the taxonomy: its index in the tree, assigned in load order.
pub type Style = usize;

/// Number of leading tab characters of `s` from position `i` on.
pub open spec fn tabs_from(s: Seq<char>, i: int) -> nat
    decreases s.len() - i,
{
    if 0 <= i < s.len() && s[i] == '\t' {
        tabs_from(s, i + 1) + 1
    } else {
        0
    }
}

/// The depth that a line of an outline gives: its count of leading tabs.
pub open spec fn line_depth(s: Seq<char>) -> nat {
    tabs_from(s, 0)
}

/// The name that a line of an outline gives: what follows its leading tabs.
pub open spec fn line_name(s: Seq<char>) -> Seq<char> {
    s.subrange(line_depth(s) as int, s.len() as int)
}

/// The ancestors that stay open when a line of depth `t` comes: at most `t` of them.
pub open spec fn keep_open(stack: Seq<Style>, t: nat) -> Seq<Style> {
    if stack.len() > t {
        stack.subrange(0, t as int)
    } else {
        stack
    }
}

/// The open ancestors after the first `k` lines of an outline; line `j` makes node `j + 1`.
pub open spec fn open_after(lines: Seq<Seq<char>>, k: nat) -> Seq<Style>
    decreases k,
{
    if k == 0 {
        Seq::empty()
    } else {
        keep_open(open_after(lines, (k - 1) as nat), line_depth(lines[k - 1])).push(k as Style)
    }
}

/// The parent of the node that line `k` makes: the deepest ancestor still open, else the root.
pub open spec fn line_parent(lines: Seq<Seq<char>>, k: nat) -> Style {
    let kept = keep_open(open_after(lines, k), line_depth(lines[k as int]));
    if kept.len() == 0 {
        0
    } else {
        kept.last()
    }
}

/// Whether following parents from `i` reaches the root.
pub open spec fn reaches_root(parents: Seq<Option<Style>>, i: Style) -> bool
    decreases i,
{
    if i == 0 {
        true
    } else if 0 < i < parents.len() {
        match parents[i as int] {
            Some(p) => p < i && reaches_root(parents, p),
            None => false,
        }
    } else {
        false
    }
}

/// Counts the leading tabs of a line.
fn leading_tabs(line: &str) -> (r: usize)
    ensures
        r == line_depth(line@),
        r <= line@.len(),
{
    let n = line.unicode_len();
    let mut i: usize = 0;
    while i < n && line.get_char(i) == '\t'
        invariant
            n == line@.len(),
            i <= n,
            tabs_from(line@, 0) == i + tabs_from(line@, i as int),
        decreases n - i,
    {
        proof {
            lemma_tabs_step(line@, i as int);
        }
        i = i + 1;
    }
    proof {
        lemma_tabs_end(line@, i as int);
    }
    i
}

proof fn lemma_tabs_step(s: Seq<char>, i: int)
    requires
        0 <= i < s.len(),
        s[i] == '\t',
    ensures
        tabs_from(s, i) == tabs_from(s, i + 1) + 1,
{
}

proof fn lemma_tabs_end(s: Seq<char>, i: int)
    requires
        0 <= i <= s.len(),
        i == s.len() || s[i] != '\t',
    ensures
        tabs_from(s, i) == 0,
{
}

/// The nodes below index `n` whose parent is `s`, in ascending order.
pub open spec fn children_upto(parents: Seq<Option<Style>>, s: Style, n: int) -> Seq<Style>
    decreases n,
{
    if n <= 0 {
        Seq::empty()
    } else {
        let r = children_upto(parents, s, n - 1);
        if parents[n - 1] == Some(s) {
            r.push((n - 1) as Style)
        } else {
            r
        }
    }
}

/// A forest of styles under a synthetic root at index 0.
pub struct StyleTree {
    names: Vec<String>,
    parents: Vec<Option<Style>>,
}

impl StyleTree {
    /// Names of the nodes, by index.
    pub closed spec fn names_view(&self) -> Seq<Seq<char>> {
        self.names@.map_values(|s: String| s@)
    }

    /// Parents of the nodes, by index; the root has none.
    pub closed spec fn parents_view(&self) -> Seq<Option<Style>> {
        self.parents@
    }

    pub open spec fn len(&self) -> nat {
        self.parents_view().len()
    }

    /// Every node but the root has a parent created before it, which rules out cycles.
    pub open spec fn wf(&self) -> bool {
        &&& self.names_view().len() == self.parents_view().len()
        &&& self.parents_view().len() >= 1
        &&& self.parents_view()[0] is None
        &&& forall|i: int|
            0 < i < self.parents_view().len() ==> {
                let p = #[trigger] self.parents_view()[i];
                p is Some && (p->0 as int) < i
            }
    }

    /// The children of `s`, in ascending order.
    pub open spec fn child_list(&self, s: Style) -> Seq<Style> {
        children_upto(self.parents_view(), s, self.len() as int)
    }

    /// Whether `c` is among the nodes whose parent is `s`.
    pub open spec fn is_child(&self, c: int, s: Style) -> bool {
        0 <= c < self.len() && self.parents_view()[c] == Some(s)
    }

    /// A tree that holds the root alone.
    pub fn new() -> (r: StyleTree)
        ensures
            r.wf(),
            r.len() == 1,
            r.names_view()[0] == "Root"@,
    {
        let root = String::from_str("Root");
        proof {
            reveal_strlit("Root");
        }
        let r = StyleTree { names: vec![root], parents: vec![None] };
        assert(r.names_view() =~= seq!["Root"@]);
        r
    }

    /// Builds the tree of an outline, one node per line: a line's leading tabs give its
    /// depth and the rest its name. A line deeper than the ancestors open before it hangs
    /// from the deepest of them, or from the root when none is open.
    pub fn from_lines(lines: &Vec<String>) -> (r: StyleTree)
        requires
            lines@.len() < usize::MAX,
        ensures
            r.wf(),
            r.len() == lines@.len() + 1,
            r.names_view()[0] == "Root"@,
            forall|k: int|
                0 <= k < lines@.len() ==> {
                    &&& r.names_view()[k + 1] == line_name(#[trigger] lines@[k]@)
                    &&& r.parents_view()[k + 1] == Some(
                        line_parent(lines@.map_values(|l: String| l@), k as nat),
                    )
                },
    {
        let ghost ls = lines@.map_values(|l: String| l@);
        let mut tree = StyleTree::new();
        let mut stack: Vec<Style> = Vec::new();
        let mut k: usize = 0;
        while k < lines.len()
            invariant
                k <= lines@.len(),
                lines@.len() < usize::MAX,
                ls == lines@.map_values(|l: String| l@),
                tree.wf(),
                tree.len() == k + 1,
                tree.names_view()[0] == "Root"@,
                stack@ == open_after(ls, k as nat),
                forall|j: int| 0 <= j < stack@.len() ==> 1 <= #[trigger] stack@[j] <= k,
                forall|j: int|
                    0 <= j < k ==> {
                        &&& tree.names_view()[j + 1] == line_name(#[trigger] lines@[j]@)
                        &&& tree.parents_view()[j + 1] == Some(line_parent(ls, j as nat))
                    },
            decreases lines@.len() - k,
        {
            let line = lines[k].as_str();
            let t = leading_tabs(line);
            let ghost st = stack@;
            while stack.len() > t
                invariant
                    stack@ == st.subrange(0, stack@.len() as int),
                    stack@.len() <= st.len(),
                    stack@.len() >= t || stack@.len() == st.len(),
                decreases stack@.len(),
            {
                stack.pop();
            }
            assert(stack@ =~= keep_open(st, t as nat));
            let parent = if stack.len() == 0 {
                0
            } else {
                stack[stack.len() - 1]
            };
            let name = String::from_str(line.substring_char(t, line.unicode_len()));
            let ghost names0 = tree.names_view();
            let ghost parents0 = tree.parents_view();
            let new_style = tree.parents.len();
            tree.names.push(name);
            tree.parents.push(Some(parent));
            stack.push(new_style);
            proof {
                assert(tree.names_view() =~= names0.push(line_name(lines@[k as int]@)));
                assert(tree.parents_view() =~= parents0.push(Some(line_parent(ls, k as nat))));
                assert(ls[k as int] == lines@[k as int]@);
                assert(stack@ =~= open_after(ls, (k + 1) as nat));
            }
            k = k + 1;
        }
        tree
    }

    pub fn base(&self) -> (r: Style)
        ensures
            r == 0,
    {
        0
    }

    pub fn name(&self, style: Style) -> (r: &str)
        requires
            self.wf(),
            style < self.len(),
        ensures
            r@ == self.names_view()[style as int],
    {
        self.names[style].as_str()
    }

    /// The nodes whose parent is `style`, in ascending order.
    pub fn children(&self, style: Style) -> (r: Vec<Style>)
        requires
            self.wf(),
        ensures
            r@ == self.child_list(style),
            forall|j: int, k: int| 0 <= j < k < r@.len() ==> r@[j] < r@[k],
            forall|j: int| 0 <= j < r@.len() ==> self.is_child(#[trigger] r@[j] as int, style),
            forall|c: int| #[trigger] self.is_child(c, style) ==> r@.contains(c as Style),
    {
        let mut r: Vec<Style> = Vec::new();
        let mut i: usize = 0;
        while i < self.parents.len()
            invariant
                i <= self.parents@.len(),
                r@ == children_upto(self.parents@, style, i as int),
                forall|j: int, k: int| 0 <= j < k < r@.len() ==> r@[j] < r@[k],
                forall|j: int| 0 <= j < r@.len() ==> r@[j] < i,
                forall|j: int| 0 <= j < r@.len() ==> self.is_child(#[trigger] r@[j] as int, style),
                forall|c: int| 0 <= c < i && #[trigger] self.is_child(c, style) ==> r@.contains(c as Style),
            decreases self.parents@.len() - i,
        {
            let hit = match self.parents[i] {
                Some(p) => p == style,
                None => false,
            };
            let ghost r0 = r@;
            if hit {
                r.push(i);
                assert(r@[r@.len() - 1] == i);
            }
            proof {
                assert forall|c: int| 0 <= c < i + 1 && #[trigger] self.is_child(c, style)
                    implies r@.contains(c as Style) by {
                    if c == i {
                        assert(r@[r@.len() - 1] == i);
                    } else {
                        assert(r0.contains(c as Style));
                        let w = choose|w: int| 0 <= w < r0.len() && r0[w] == c as Style;
                        assert(r@[w] == c as Style);
                    }
                }
            }
            i = i + 1;
        }
        r
    }
}

/// In a well-formed tree, following parents from any node reaches the root in finitely
/// many steps: the parent relation has no cycle.
pub proof fn lemma_ancestors_reach_root(tree: &StyleTree)
    requires
        tree.wf(),
    ensures
        forall|i: Style| i < tree.len() ==> #[trigger] reaches_root(tree.parents_view(), i),
{
    assert forall|i: Style| i < tree.len() implies #[trigger] reaches_root(tree.parents_view(), i) by {
        lemma_reaches_root(tree, i);
    }
}

proof fn lemma_reaches_root(tree: &StyleTree, i: Style)
    requires
        tree.wf(),
        i < tree.len(),
    ensures
        reaches_root(tree.parents_view(), i),
    decreases i,
{
    if i > 0 {
        let p = tree.parents_view()[i as int];
        lemma_reaches_root(tree, p->0);
    }
}

} // verus!
