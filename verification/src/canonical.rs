//! Canonical values: sorted, free of duplicates, and checked. A canonical
//! value is made from a tolerant configuration, which is put in order, or
//! from a strict manifest, which must be in order already; after that it
//! does not change.

use crate::context::explain;
use crate::context::explained;
use crate::error::Error;
use crate::sorted::contains_key;
use crate::error::ErrorView;
use crate::error::Item;
use crate::sorted::is_ordered;
use crate::sorted::is_strictly_ordered;
use crate::sorted::lemma_put;
use crate::sorted::lemma_put_all;
use crate::sorted::lemma_sort;
use crate::sorted::lemma_without;
use crate::sorted::ordered;
use crate::sorted::put;
use crate::sorted::put_all;
use crate::sorted::put_by_key;
use crate::sorted::remove_by_key;
use crate::sorted::sort;
use crate::sorted::sort_by_key;
use crate::sorted::strictly_ordered;
use crate::sorted::without;
use crate::sorted::has_key;
use crate::sorted::Keyed;
use crate::sorted::lemma_text_has_key;
use crate::sorted::lemma_put_text;
use crate::transport::MatchTransform as MatchTransformTransport;
use crate::text::bytes_equal;
use crate::text::bytes_less;
use crate::text::bytes_lt;
use crate::text::lemma_bytes_lt_orders;
use crate::text::lemma_bytes_lt_irreflexive;
use crate::text::lemma_bytes_lt_total;
use crate::text::lemma_bytes_lt_transitive;
use crate::discovery::discovered;
use crate::discovery::get_matching_input_files;
use crate::discovery::includes_none;
use crate::discovery::io_error;
use crate::discovery::surely_includes_none;
use crate::error::Operation;
use crate::fs::Filesystem;
use crate::identity::identity_of;
use crate::identity::sha256;
use crate::projection::project_outputs;
use crate::projection::projected;
use crate::discovery::malformed;
use crate::discovery::put_all_texts;
use crate::discovery::same_paths;
use crate::matching::is_match;
use crate::matching::is_regular_expression;
use crate::matching::regex_compiles;
use crate::matching::regex_is_match;
use crate::sorted::keys;
use crate::sorted::lemma_put_all_text;
use crate::sorted::lexical_from;
use crate::transport::ContentSha256;
use crate::transport::IdentityScheme;
use crate::transport::Match;
use crate::transport::Sha256;
use vstd::prelude::*;
use vstd::string::StringSliceAdditionalSpecFns;
use vstd::utf8::encode_utf8;

verus! {

impl Keyed for (String, String) {
    type Key = Seq<u8>;

    /// A variable is ordered by its name.
    open spec fn key(item: (Seq<char>, Seq<char>)) -> Seq<u8> {
        encode_utf8(item.0)
    }

    open spec fn before(a: Seq<u8>, b: Seq<u8>) -> bool {
        bytes_lt(a, b)
    }

    proof fn keys_are_ordered(a: Seq<u8>, b: Seq<u8>, c: Seq<u8>) {
        lemma_bytes_lt_orders(a, b, c);
    }

    fn key_less(&self, other: &Self) -> (r: bool) {
        bytes_less(self.0.as_str().as_bytes(), other.0.as_str().as_bytes())
    }

    fn key_equal(&self, other: &Self) -> (r: bool) {
        bytes_equal(self.0.as_str().as_bytes(), other.0.as_str().as_bytes())
    }
}

impl Keyed for (String, Option<Sha256>) {
    type Key = Seq<u8>;

    /// An identified file is ordered by its path.
    open spec fn key(item: (Seq<char>, Option<Seq<u8>>)) -> Seq<u8> {
        encode_utf8(item.0)
    }

    open spec fn before(a: Seq<u8>, b: Seq<u8>) -> bool {
        bytes_lt(a, b)
    }

    proof fn keys_are_ordered(a: Seq<u8>, b: Seq<u8>, c: Seq<u8>) {
        lemma_bytes_lt_orders(a, b, c);
    }

    fn key_less(&self, other: &Self) -> (r: bool) {
        bytes_less(self.0.as_str().as_bytes(), other.0.as_str().as_bytes())
    }

    fn key_equal(&self, other: &Self) -> (r: bool) {
        bytes_equal(self.0.as_str().as_bytes(), other.0.as_str().as_bytes())
    }
}

impl Keyed for Sha256 {
    type Key = Seq<u8>;

    /// An identity is ordered by its bytes.
    open spec fn key(item: Seq<u8>) -> Seq<u8> {
        item
    }

    open spec fn before(a: Seq<u8>, b: Seq<u8>) -> bool {
        bytes_lt(a, b)
    }

    proof fn keys_are_ordered(a: Seq<u8>, b: Seq<u8>, c: Seq<u8>) {
        lemma_bytes_lt_orders(a, b, c);
    }

    fn key_less(&self, other: &Self) -> (r: bool) {
        bytes_less(self.bytes().as_slice(), other.bytes().as_slice())
    }

    fn key_equal(&self, other: &Self) -> (r: bool) {
        bytes_equal(self.bytes().as_slice(), other.bytes().as_slice())
    }
}

impl Keyed for Match {
    type Key = Seq<u8>;

    /// A regular expression is ordered by its pattern.
    open spec fn key(item: Seq<char>) -> Seq<u8> {
        encode_utf8(item)
    }

    open spec fn before(a: Seq<u8>, b: Seq<u8>) -> bool {
        bytes_lt(a, b)
    }

    proof fn keys_are_ordered(a: Seq<u8>, b: Seq<u8>, c: Seq<u8>) {
        lemma_bytes_lt_orders(a, b, c);
    }

    fn key_less(&self, other: &Self) -> (r: bool) {
        bytes_less(
            self.match_regular_expression.as_str().as_bytes(),
            other.match_regular_expression.as_str().as_bytes(),
        )
    }

    fn key_equal(&self, other: &Self) -> (r: bool) {
        bytes_equal(
            self.match_regular_expression.as_str().as_bytes(),
            other.match_regular_expression.as_str().as_bytes(),
        )
    }
}

impl Keyed for crate::transport::MatchTransform {
    type Key = (Seq<u8>, Seq<Seq<u8>>);

    /// A transform is ordered by its pattern, then by its templates.
    open spec fn key(item: (Seq<char>, Seq<Seq<char>>)) -> (Seq<u8>, Seq<Seq<u8>>) {
        (encode_utf8(item.0), keys::<String>(item.1))
    }

    open spec fn before(a: (Seq<u8>, Seq<Seq<u8>>), b: (Seq<u8>, Seq<Seq<u8>>)) -> bool {
        bytes_lt(a.0, b.0) || (a.0 == b.0 && lexical_from::<String>(a.1, b.1, 0))
    }

    proof fn keys_are_ordered(
        a: (Seq<u8>, Seq<Seq<u8>>),
        b: (Seq<u8>, Seq<Seq<u8>>),
        c: (Seq<u8>, Seq<Seq<u8>>),
    ) {
        lemma_bytes_lt_irreflexive(a.0);
        lemma_bytes_lt_irreflexive(b.0);
        lemma_bytes_lt_total(a.0, b.0);
        if bytes_lt(a.0, b.0) && bytes_lt(b.0, c.0) {
            lemma_bytes_lt_transitive(a.0, b.0, c.0);
        }
        <Vec<String> as Keyed>::keys_are_ordered(a.1, b.1, c.1);
    }

    fn key_less(&self, other: &Self) -> (r: bool) {
        let a = self.match_regular_expression.as_str().as_bytes();
        let b = other.match_regular_expression.as_str().as_bytes();
        if bytes_less(a, b) {
            true
        } else if bytes_equal(a, b) {
            self.match_transform_expressions.key_less(&other.match_transform_expressions)
        } else {
            false
        }
    }

    fn key_equal(&self, other: &Self) -> (r: bool) {
        bytes_equal(
            self.match_regular_expression.as_str().as_bytes(),
            other.match_regular_expression.as_str().as_bytes(),
        ) && self.match_transform_expressions.key_equal(&other.match_transform_expressions)
    }
}

/// A copy of the texts.
pub fn copy_texts(texts: &Vec<String>) -> (r: Vec<String>)
    ensures
        r.deep_view() == texts.deep_view(),
{
    let mut r: Vec<String> = Vec::new();
    let mut i: usize = 0;
    while i < texts.len()
        invariant
            0 <= i <= texts.len(),
            r.len() == i,
            forall|k: int| 0 <= k < i ==> r[k]@ == texts[k]@,
        decreases texts.len() - i,
    {
        r.push(texts[i].clone());
        i += 1;
    }
    assert(r.deep_view() =~= texts.deep_view());
    r
}

/// A copy of the pairs.
pub fn copy_pairs(pairs: &Vec<(String, String)>) -> (r: Vec<(String, String)>)
    ensures
        r.deep_view() == pairs.deep_view(),
{
    let mut r: Vec<(String, String)> = Vec::new();
    let mut i: usize = 0;
    while i < pairs.len()
        invariant
            0 <= i <= pairs.len(),
            r.len() == i,
            forall|k: int| 0 <= k < i ==> r[k].deep_view() == pairs[k].deep_view(),
        decreases pairs.len() - i,
    {
        r.push((pairs[i].0.clone(), pairs[i].1.clone()));
        i += 1;
    }
    assert(r.deep_view() =~= pairs.deep_view());
    r
}

/// Whether a pair occurs twice.
fn has_repeated_pair(pairs: &Vec<(String, String)>) -> (r: bool)
    ensures
        r == !pairs.deep_view().no_duplicates(),
{
    let ghost s = pairs.deep_view();
    let mut j: usize = 0;
    while j < pairs.len()
        invariant
            0 <= j <= pairs.len(),
            s == pairs.deep_view(),
            forall|a: int, b: int| 0 <= a < b < j ==> s[a] != s[b],
        decreases pairs.len() - j,
    {
        let mut i: usize = 0;
        while i < j
            invariant
                0 <= i <= j < pairs.len(),
                s == pairs.deep_view(),
                forall|a: int| 0 <= a < i ==> s[a] != s[j as int],
            decreases j - i,
        {
            assert(s[i as int] == pairs[i as int].deep_view());
            assert(s[j as int] == pairs[j as int].deep_view());
            if pairs[i].0 == pairs[j].0 && pairs[i].1 == pairs[j].1 {
                assert(s[i as int] == s[j as int]);
                return true;
            }
            i += 1;
        }
        j += 1;
    }
    assert forall|a: int, b: int| 0 <= a < s.len() && 0 <= b < s.len() && a != b implies s[a]
        != s[b] by {
        if a < b {
        } else {
            assert(s[b] != s[a]);
        }
    }
    false
}

/// The pairs without those that occurred before.
pub open spec fn first_occurrences<E>(s: Seq<E>) -> Seq<E>
    decreases s.len(),
{
    if s.len() == 0 {
        s
    } else if first_occurrences(s.drop_last()).contains(s.last()) {
        first_occurrences(s.drop_last())
    } else {
        first_occurrences(s.drop_last()).push(s.last())
    }
}

/// Each item occurs once in the first occurrences, and each item of the
/// sequence occurs.
pub proof fn lemma_first_occurrences<E>(s: Seq<E>)
    ensures
        first_occurrences(s).no_duplicates(),
        forall|x: E| #[trigger] first_occurrences(s).contains(x) <==> s.contains(x),
    decreases s.len(),
{
    let r = first_occurrences(s);
    if s.len() > 0 {
        let t = s.drop_last();
        let rt = first_occurrences(t);
        lemma_first_occurrences(t);
        assert forall|x: E| r.contains(x) <==> s.contains(x) by {
            assert(rt.contains(x) <==> t.contains(x));
            if r.contains(x) {
                let i = choose|i: int| 0 <= i < r.len() && r[i] == x;
                if i < rt.len() {
                    assert(rt[i] == x);
                    assert(rt.contains(x));
                    let k = choose|k: int| 0 <= k < t.len() && t[k] == x;
                    assert(s[k] == x);
                } else {
                    assert(s[s.len() - 1] == x);
                }
            }
            if s.contains(x) {
                let k = choose|k: int| 0 <= k < s.len() && s[k] == x;
                if k < t.len() {
                    assert(t[k] == x);
                    assert(t.contains(x));
                    let i = choose|i: int| 0 <= i < rt.len() && rt[i] == x;
                    assert(r[i] == x);
                } else if rt.contains(x) {
                    let i = choose|i: int| 0 <= i < rt.len() && rt[i] == x;
                    assert(r[i] == x);
                } else {
                    assert(r[r.len() - 1] == x);
                }
            }
        }
        if !rt.contains(s.last()) {
            assert forall|i: int, j: int| 0 <= i < r.len() && 0 <= j < r.len() && i != j implies r[i]
                != r[j] by {
                if i < rt.len() && j < rt.len() {
                    assert(rt[i] != rt[j]);
                } else if i < rt.len() {
                    assert(rt.contains(rt[i]));
                } else if j < rt.len() {
                    assert(rt.contains(rt[j]));
                }
            }
        }
    } else {
        assert forall|x: E| r.contains(x) <==> s.contains(x) by {
            if s.contains(x) {
                let k = choose|k: int| 0 <= k < s.len() && s[k] == x;
            }
        }
    }
}

/// The pairs without those that occurred before.
fn drop_repeated_pairs(pairs: Vec<(String, String)>) -> (r: Vec<(String, String)>)
    ensures
        r.deep_view() == first_occurrences(pairs.deep_view()),
{
    let ghost all = pairs.deep_view();
    let mut rest = pairs;
    let mut r: Vec<(String, String)> = Vec::new();
    let ghost mut n: int = 0;
    assert(all.take(0) =~= Seq::empty());
    assert(r.deep_view() =~= Seq::empty());
    assert(rest.deep_view() =~= all.skip(0));
    while rest.len() > 0
        invariant
            all == pairs.deep_view(),
            0 <= n <= all.len(),
            r.deep_view() == first_occurrences(all.take(n)),
            rest.deep_view() == all.skip(n),
        decreases rest.len(),
    {
        let ghost before = rest.deep_view();
        let ghost before_items = rest@;
        let x = rest.remove(0);
        proof {
            assert(before.len() == all.len() - n);
            assert(x.deep_view() == before[0]);
            assert forall|i: int| 0 <= i < rest.len() implies rest.deep_view()[i] == all.skip(
                n + 1,
            )[i] by {
                assert(rest@[i] == before_items[i + 1]);
                assert(before[i + 1] == before_items[i + 1].deep_view());
            }
            assert(rest.deep_view() =~= all.skip(n + 1));
            assert(all.take(n + 1).drop_last() =~= all.take(n));
            assert(all.take(n + 1).last() == all[n]);
        }
        let ghost shown = r.deep_view();
        let mut seen: bool = false;
        let mut i: usize = 0;
        while i < r.len()
            invariant_except_break
                !seen,
            invariant
                0 <= i <= r.len(),
                shown == r.deep_view(),
                forall|k: int| 0 <= k < i ==> shown[k] != x.deep_view(),
            ensures
                seen == shown.contains(x.deep_view()),
            decreases r.len() - i,
        {
            assert(shown[i as int] == r[i as int].deep_view());
            if r[i].0 == x.0 && r[i].1 == x.1 {
                seen = true;
                break ;
            }
            i += 1;
        }
        if !seen {
            r.push(x);
            assert(r.deep_view() =~= shown.push(x.deep_view()));
        }
        proof {
            n = n + 1;
        }
    }
    assert(all.take(n) =~= all);
    r
}

/// The environment of a program: variables in the order of their names,
/// none of them twice.
#[derive(Debug, PartialEq, Eq)]
pub struct EnvironmentVariables {
    environment_variables: Vec<(String, String)>,
}

/// Whether variables are canonical: in the order of their names, and no
/// pair of name and value twice.
pub open spec fn canonical_environment(pairs: Seq<(Seq<char>, Seq<char>)>) -> bool {
    ordered::<(String, String)>(pairs) && pairs.no_duplicates()
}

impl View for EnvironmentVariables {
    type V = Seq<(Seq<char>, Seq<char>)>;

    closed spec fn view(&self) -> Seq<(Seq<char>, Seq<char>)> {
        self.environment_variables.deep_view()
    }
}

impl EnvironmentVariables {
    #[verifier::type_invariant]
    spec fn is_canonical(&self) -> bool {
        canonical_environment(self.environment_variables.deep_view())
    }

    /// The variables, which are canonical.
    pub fn environment_variables(&self) -> (r: &Vec<(String, String)>)
        ensures
            r.deep_view() == self@,
            canonical_environment(self@),
    {
        proof {
            use_type_invariant(self);
        }
        &self.environment_variables
    }

    /// The empty environment.
    pub fn empty() -> (r: Self)
        ensures
            r@ == Seq::<(Seq<char>, Seq<char>)>::empty(),
    {
        let r = Self { environment_variables: Vec::new() };
        assert(r@ =~= Seq::empty());
        r
    }

    /// The environment that a configuration states. The variables may come
    /// in any order and are sorted by name, those of one name staying as
    /// they came; a pair that occurs twice is refused.
    pub fn try_from_config(environment_variables: crate::transport::EnvironmentVariables) -> (r:
        Result<Self, Error>)
        ensures
            match r {
                Ok(canonical) => environment_variables.environment_variables.deep_view().no_duplicates()
                    && canonical@ == sort::<(String, String)>(
                    environment_variables.environment_variables.deep_view(),
                ),
                Err(e) => !environment_variables.environment_variables.deep_view().no_duplicates()
                    && e@ == ErrorView::Duplicate(
                    Item::EnvironmentVariables,
                    explained::<(String, String)>(
                        environment_variables.environment_variables.deep_view(),
                    ),
                ),
            },
    {
        let ghost given = environment_variables.environment_variables.deep_view();
        if has_repeated_pair(&environment_variables.environment_variables) {
            return Err(
                Error::Duplicate(
                    Item::EnvironmentVariables,
                    explain(&environment_variables.environment_variables),
                ),
            );
        }
        let sorted = sort_by_key(environment_variables.environment_variables);
        proof {
            lemma_sort::<(String, String)>(given);
            given.lemma_multiset_has_no_duplicates();
            sorted.deep_view().lemma_multiset_has_no_duplicates_conv();
        }
        Ok(Self { environment_variables: sorted })
    }

    /// The environment that a configuration states, which is left as it is.
    pub fn try_from_borrowed_config(
        environment_variables: &crate::transport::EnvironmentVariables,
    ) -> (r: Result<Self, Error>)
        ensures
            match r {
                Ok(canonical) => environment_variables.environment_variables.deep_view().no_duplicates()
                    && canonical@ == sort::<(String, String)>(
                    environment_variables.environment_variables.deep_view(),
                ),
                Err(e) => !environment_variables.environment_variables.deep_view().no_duplicates()
                    && e@ == ErrorView::Duplicate(
                    Item::EnvironmentVariables,
                    explained::<(String, String)>(
                        environment_variables.environment_variables.deep_view(),
                    ),
                ),
            },
    {
        Self::try_from_config(
            crate::transport::EnvironmentVariables {
                environment_variables: copy_pairs(&environment_variables.environment_variables),
            },
        )
    }

    /// The environment that a manifest holds. It must be canonical already:
    /// variables out of order are refused, and so is a pair that occurs
    /// twice.
    pub fn try_from_manifest(environment_variables: crate::transport::EnvironmentVariables) -> (r:
        Result<Self, Error>)
        ensures
            match r {
                Ok(canonical) => canonical_environment(
                    environment_variables.environment_variables.deep_view(),
                ) && canonical@ == environment_variables.environment_variables.deep_view(),
                Err(e) => if !ordered::<(String, String)>(
                    environment_variables.environment_variables.deep_view(),
                ) {
                    e@ == ErrorView::NotSorted(
                        Item::EnvironmentVariables,
                        explained::<(String, String)>(
                            environment_variables.environment_variables.deep_view(),
                        ),
                    )
                } else {
                    !environment_variables.environment_variables.deep_view().no_duplicates() && e@
                        == ErrorView::Duplicate(
                        Item::EnvironmentVariables,
                        explained::<(String, String)>(
                            environment_variables.environment_variables.deep_view(),
                        ),
                    )
                },
            },
    {
        if !is_ordered(&environment_variables.environment_variables) {
            return Err(
                Error::NotSorted(
                    Item::EnvironmentVariables,
                    explain(&environment_variables.environment_variables),
                ),
            );
        }
        if has_repeated_pair(&environment_variables.environment_variables) {
            return Err(
                Error::Duplicate(
                    Item::EnvironmentVariables,
                    explain(&environment_variables.environment_variables),
                ),
            );
        }
        Ok(Self { environment_variables: environment_variables.environment_variables })
    }

    /// The environment that a manifest holds, which is left as it is.
    pub fn try_from_borrowed_manifest(
        environment_variables: &crate::transport::EnvironmentVariables,
    ) -> (r: Result<Self, Error>)
        ensures
            match r {
                Ok(canonical) => canonical_environment(
                    environment_variables.environment_variables.deep_view(),
                ) && canonical@ == environment_variables.environment_variables.deep_view(),
                Err(e) => if !ordered::<(String, String)>(
                    environment_variables.environment_variables.deep_view(),
                ) {
                    e@ == ErrorView::NotSorted(
                        Item::EnvironmentVariables,
                        explained::<(String, String)>(
                            environment_variables.environment_variables.deep_view(),
                        ),
                    )
                } else {
                    !environment_variables.environment_variables.deep_view().no_duplicates() && e@
                        == ErrorView::Duplicate(
                        Item::EnvironmentVariables,
                        explained::<(String, String)>(
                            environment_variables.environment_variables.deep_view(),
                        ),
                    )
                },
            },
    {
        Self::try_from_manifest(
            crate::transport::EnvironmentVariables {
                environment_variables: copy_pairs(&environment_variables.environment_variables),
            },
        )
    }

    /// The environment as a manifest holds it.
    pub fn into_manifest(self) -> (r: crate::transport::EnvironmentVariables)
        ensures
            r.environment_variables.deep_view() == self@,
            canonical_environment(self@),
    {
        proof {
            use_type_invariant(&self);
        }
        crate::transport::EnvironmentVariables { environment_variables: self.environment_variables }
    }

    /// The environment as a manifest holds it.
    pub fn as_manifest(&self) -> (r: crate::transport::EnvironmentVariables)
        ensures
            r.environment_variables.deep_view() == self@,
            canonical_environment(self@),
    {
        proof {
            use_type_invariant(self);
        }
        crate::transport::EnvironmentVariables {
            environment_variables: copy_pairs(&self.environment_variables),
        }
    }

    /// The environment with these variables: sorted by name, and each pair
    /// once.
    pub fn new(environment_variables: Vec<(String, String)>) -> (r: Self)
        ensures
            r@ == sort::<(String, String)>(first_occurrences(environment_variables.deep_view())),
    {
        let ghost given = environment_variables.deep_view();
        let once = drop_repeated_pairs(environment_variables);
        let sorted = sort_by_key(once);
        proof {
            lemma_first_occurrences(given);
            lemma_sort::<(String, String)>(first_occurrences(given));
            first_occurrences(given).lemma_multiset_has_no_duplicates();
            sorted.deep_view().lemma_multiset_has_no_duplicates_conv();
        }
        Self { environment_variables: sorted }
    }
}

impl Clone for EnvironmentVariables {
    fn clone(&self) -> (r: Self)
        ensures
            r@ == self@,
    {
        proof {
            use_type_invariant(self);
        }
        Self { environment_variables: copy_pairs(&self.environment_variables) }
    }
}

/// The path of a program.
#[derive(Debug, PartialEq, Eq)]
pub struct Program {
    program: String,
}

impl View for Program {
    type V = Seq<char>;

    closed spec fn view(&self) -> Seq<char> {
        self.program@
    }
}

impl Program {
    /// The path.
    pub fn program(&self) -> (r: &String)
        ensures
            r@ == self@,
    {
        &self.program
    }

    /// The program at the path.
    pub fn new(program: &str) -> (r: Self)
        ensures
            r@ == program@,
    {
        Self { program: program.to_owned() }
    }

    /// The program that a manifest names.
    pub fn from(transport: crate::transport::Program) -> (r: Self)
        ensures
            r@ == transport.program@,
    {
        Self { program: transport.program }
    }

    /// The program as a manifest names it.
    pub fn into_transport(self) -> (r: crate::transport::Program)
        ensures
            r.program@ == self@,
    {
        crate::transport::Program { program: self.program }
    }

    /// The program as a manifest names it.
    pub fn as_transport(&self) -> (r: crate::transport::Program)
        ensures
            r.program@ == self@,
    {
        crate::transport::Program { program: self.program.clone() }
    }
}

impl Clone for Program {
    fn clone(&self) -> (r: Self)
        ensures
            r@ == self@,
    {
        Self { program: self.program.clone() }
    }
}

/// The arguments of a program, in order.
#[derive(Debug, PartialEq, Eq)]
pub struct Arguments {
    arguments: Vec<String>,
}

impl View for Arguments {
    type V = Seq<Seq<char>>;

    closed spec fn view(&self) -> Seq<Seq<char>> {
        self.arguments.deep_view()
    }
}

impl Arguments {
    /// No arguments.
    pub fn empty() -> (r: Self)
        ensures
            r@ == Seq::<Seq<char>>::empty(),
    {
        let r = Self { arguments: Vec::new() };
        assert(r@ =~= Seq::empty());
        r
    }

    /// The arguments, in order.
    pub fn arguments(&self) -> (r: &Vec<String>)
        ensures
            r.deep_view() == self@,
    {
        &self.arguments
    }

    /// These arguments.
    pub fn new(arguments: Vec<String>) -> (r: Self)
        ensures
            r@ == arguments.deep_view(),
    {
        Self { arguments }
    }

    /// The arguments that a manifest holds.
    pub fn from(transport: crate::transport::Arguments) -> (r: Self)
        ensures
            r@ == transport.arguments.deep_view(),
    {
        Self { arguments: transport.arguments }
    }

    /// The arguments as a manifest holds them.
    pub fn into_transport(self) -> (r: crate::transport::Arguments)
        ensures
            r.arguments.deep_view() == self@,
    {
        crate::transport::Arguments { arguments: self.arguments }
    }

    /// The arguments as a manifest holds them.
    pub fn as_transport(&self) -> (r: crate::transport::Arguments)
        ensures
            r.arguments.deep_view() == self@,
    {
        crate::transport::Arguments { arguments: copy_texts(&self.arguments) }
    }
}

impl Clone for Arguments {
    fn clone(&self) -> (r: Self)
        ensures
            r@ == self@,
    {
        Self { arguments: copy_texts(&self.arguments) }
    }
}

/// The machine that a run took place on, as contracts speak of it.
pub struct SystemView {
    pub name: Option<Seq<char>>,
    pub long_os_version: Option<Seq<char>>,
    pub kernel_version: Option<Seq<char>>,
    pub distribution_id: Seq<char>,
    pub total_memory: u64,
    pub estimated_num_cpu_cores: usize,
}

/// The machine that a run took place on.
#[derive(Debug, PartialEq, Eq)]
pub struct System {
    name: Option<String>,
    long_os_version: Option<String>,
    kernel_version: Option<String>,
    distribution_id: String,
    total_memory: u64,
    estimated_num_cpu_cores: usize,
}

impl View for crate::transport::System {
    type V = SystemView;

    open spec fn view(&self) -> SystemView {
        SystemView {
            name: self.name.deep_view(),
            long_os_version: self.long_os_version.deep_view(),
            kernel_version: self.kernel_version.deep_view(),
            distribution_id: self.distribution_id@,
            total_memory: self.total_memory,
            estimated_num_cpu_cores: self.estimated_num_cpu_cores,
        }
    }
}

impl View for System {
    type V = SystemView;

    closed spec fn view(&self) -> SystemView {
        SystemView {
            name: self.name.deep_view(),
            long_os_version: self.long_os_version.deep_view(),
            kernel_version: self.kernel_version.deep_view(),
            distribution_id: self.distribution_id@,
            total_memory: self.total_memory,
            estimated_num_cpu_cores: self.estimated_num_cpu_cores,
        }
    }
}

/// A copy of a text that may be absent.
fn copy_optional(text: &Option<String>) -> (r: Option<String>)
    ensures
        r.deep_view() == text.deep_view(),
{
    match text {
        Some(text) => Some(text.clone()),
        None => None,
    }
}

impl System {
    /// The machine with these properties.
    pub fn new(
        name: Option<String>,
        long_os_version: Option<String>,
        kernel_version: Option<String>,
        distribution_id: String,
        total_memory: u64,
        estimated_num_cpu_cores: usize,
    ) -> (r: Self)
        ensures
            r@ == (SystemView {
                name: name.deep_view(),
                long_os_version: long_os_version.deep_view(),
                kernel_version: kernel_version.deep_view(),
                distribution_id: distribution_id@,
                total_memory,
                estimated_num_cpu_cores,
            }),
    {
        Self {
            name,
            long_os_version,
            kernel_version,
            distribution_id,
            total_memory,
            estimated_num_cpu_cores,
        }
    }

    /// The machine that a manifest describes.
    pub fn from(transport: crate::transport::System) -> (r: Self)
        ensures
            r@ == transport@,
    {
        Self {
            name: transport.name,
            long_os_version: transport.long_os_version,
            kernel_version: transport.kernel_version,
            distribution_id: transport.distribution_id,
            total_memory: transport.total_memory,
            estimated_num_cpu_cores: transport.estimated_num_cpu_cores,
        }
    }

    /// The machine as a manifest describes it.
    pub fn into_transport(self) -> (r: crate::transport::System)
        ensures
            r@ == self@,
    {
        crate::transport::System {
            name: self.name,
            long_os_version: self.long_os_version,
            kernel_version: self.kernel_version,
            distribution_id: self.distribution_id,
            total_memory: self.total_memory,
            estimated_num_cpu_cores: self.estimated_num_cpu_cores,
        }
    }

    /// The machine as a manifest describes it.
    pub fn as_transport(&self) -> (r: crate::transport::System)
        ensures
            r@ == self@,
    {
        crate::transport::System {
            name: copy_optional(&self.name),
            long_os_version: copy_optional(&self.long_os_version),
            kernel_version: copy_optional(&self.kernel_version),
            distribution_id: self.distribution_id.clone(),
            total_memory: self.total_memory,
            estimated_num_cpu_cores: self.estimated_num_cpu_cores,
        }
    }
}

impl Clone for System {
    fn clone(&self) -> (r: Self)
        ensures
            r@ == self@,
    {
        Self {
            name: copy_optional(&self.name),
            long_os_version: copy_optional(&self.long_os_version),
            kernel_version: copy_optional(&self.kernel_version),
            distribution_id: self.distribution_id.clone(),
            total_memory: self.total_memory,
            estimated_num_cpu_cores: self.estimated_num_cpu_cores,
        }
    }
}

/// When a run took place, how long it took and on what machine, as
/// contracts speak of it.
pub struct MetadataView {
    pub timestamp_nanos: i64,
    pub execution_duration_nanos: u128,
    pub system: SystemView,
}

/// When a run took place, how long it took, and on what machine.
#[derive(Debug, PartialEq, Eq)]
pub struct Metadata {
    timestamp_nanos: i64,
    execution_duration_nanos: u128,
    system: System,
}

impl View for crate::transport::Metadata {
    type V = MetadataView;

    open spec fn view(&self) -> MetadataView {
        MetadataView {
            timestamp_nanos: self.timestamp_nanos,
            execution_duration_nanos: self.execution_duration_nanos,
            system: self.system@,
        }
    }
}

impl View for Metadata {
    type V = MetadataView;

    closed spec fn view(&self) -> MetadataView {
        MetadataView {
            timestamp_nanos: self.timestamp_nanos,
            execution_duration_nanos: self.execution_duration_nanos,
            system: self.system@,
        }
    }
}

impl Metadata {
    /// The record of a run that began at the timestamp, took the duration,
    /// and ran on the system.
    pub fn new(timestamp_nanos: i64, execution_duration_nanos: u128, system: System) -> (r: Self)
        ensures
            r@ == (MetadataView { timestamp_nanos, execution_duration_nanos, system: system@ }),
    {
        Self { timestamp_nanos, execution_duration_nanos, system }
    }

    /// The record that a manifest holds.
    pub fn from(transport: crate::transport::Metadata) -> (r: Self)
        ensures
            r@ == transport@,
    {
        Self {
            timestamp_nanos: transport.timestamp_nanos,
            execution_duration_nanos: transport.execution_duration_nanos,
            system: System::from(transport.system),
        }
    }

    /// The record as a manifest holds it.
    pub fn into_transport(self) -> (r: crate::transport::Metadata)
        ensures
            r@ == self@,
    {
        crate::transport::Metadata {
            timestamp_nanos: self.timestamp_nanos,
            execution_duration_nanos: self.execution_duration_nanos,
            system: self.system.into_transport(),
        }
    }

    /// The record as a manifest holds it.
    pub fn as_transport(&self) -> (r: crate::transport::Metadata)
        ensures
            r@ == self@,
    {
        crate::transport::Metadata {
            timestamp_nanos: self.timestamp_nanos,
            execution_duration_nanos: self.execution_duration_nanos,
            system: self.system.as_transport(),
        }
    }
}

impl Clone for Metadata {
    fn clone(&self) -> (r: Self)
        ensures
            r@ == self@,
    {
        Self {
            timestamp_nanos: self.timestamp_nanos,
            execution_duration_nanos: self.execution_duration_nanos,
            system: self.system.clone(),
        }
    }
}

/// A set of identities, held in their order.
#[derive(Debug, PartialEq, Eq)]
pub struct Listing {
    entries: Vec<Sha256>,
}

impl View for Listing {
    type V = Seq<Seq<u8>>;

    closed spec fn view(&self) -> Seq<Seq<u8>> {
        self.entries.deep_view()
    }
}

/// Adds every identity to the entries.
fn put_all_identities(entries: Vec<Sha256>, identities: &Vec<Sha256>) -> (r: Vec<Sha256>)
    ensures
        r.deep_view() == put_all::<Sha256>(entries.deep_view(), identities.deep_view()),
{
    let ghost start = entries.deep_view();
    let ghost all = identities.deep_view();
    let mut current = entries;
    let mut i: usize = 0;
    assert(all.take(0) =~= Seq::empty());
    while i < identities.len()
        invariant
            0 <= i <= identities.len(),
            all == identities.deep_view(),
            current.deep_view() == put_all::<Sha256>(start, all.take(i as int)),
        decreases identities.len() - i,
    {
        assert(all.take(i + 1).drop_last() =~= all.take(i as int));
        assert(all.take(i + 1).last() == identities[i as int]@);
        put_by_key(&mut current, identities[i]);
        i += 1;
    }
    assert(all.take(i as int) =~= all);
    current
}

impl Listing {
    #[verifier::type_invariant]
    spec fn is_canonical(&self) -> bool {
        strictly_ordered::<Sha256>(self.entries.deep_view())
    }

    /// The listing without entries.
    pub fn empty() -> (r: Self)
        ensures
            r@ == Seq::<Seq<u8>>::empty(),
    {
        let r = Self { entries: Vec::new() };
        assert(r@ =~= Seq::empty());
        r
    }

    /// The listing without entries.
    pub fn default() -> (r: Self)
        ensures
            r@ == Seq::<Seq<u8>>::empty(),
    {
        Self::empty()
    }

    /// The entries, in strict order.
    pub fn entries(&self) -> (r: &Vec<Sha256>)
        ensures
            r.deep_view() == self@,
            strictly_ordered::<Sha256>(self@),
    {
        proof {
            use_type_invariant(self);
        }
        &self.entries
    }

    /// Adds the identity. Returns whether it is new to the listing.
    pub fn put(&mut self, identity: Sha256) -> (r: bool)
        ensures
            final(self)@ == put::<Sha256>(old(self)@, identity@),
            r == !old(self)@.contains(identity@),
            forall|other: Seq<u8>| #[trigger]
                final(self)@.contains(other) <==> (other == identity@ || old(self)@.contains(other)),
    {
        proof {
            use_type_invariant(&*self);
        }
        let ghost before = self.entries.deep_view();
        let mut entries: Vec<Sha256> = Vec::new();
        assert(entries.deep_view() =~= Seq::<Seq<u8>>::empty());
        std::mem::swap(&mut entries, &mut self.entries);
        let added = put_by_key(&mut entries, identity);
        proof {
            lemma_put::<Sha256>(before, identity@);
            lemma_identity_has_key(before, identity@);
        }
        self.entries = entries;
        added
    }

    /// Takes the identity away. Returns whether it was in the listing.
    pub fn remove(&mut self, identity: &Sha256) -> (r: bool)
        ensures
            final(self)@ == without::<Sha256>(old(self)@, identity@),
            r == old(self)@.contains(identity@),
            forall|other: Seq<u8>| #[trigger]
                final(self)@.contains(other) <==> (other != identity@ && old(self)@.contains(other)),
    {
        proof {
            use_type_invariant(&*self);
        }
        let ghost before = self.entries.deep_view();
        let mut entries: Vec<Sha256> = Vec::new();
        assert(entries.deep_view() =~= Seq::<Seq<u8>>::empty());
        std::mem::swap(&mut entries, &mut self.entries);
        let removed = remove_by_key(&mut entries, identity);
        proof {
            lemma_without::<Sha256>(before, identity@);
            lemma_identity_has_key(before, identity@);
        }
        self.entries = entries;
        removed
    }

    /// The listing of these identities.
    pub fn new(entries: Vec<Sha256>) -> (r: Self)
        ensures
            r@ == put_all::<Sha256>(Seq::empty(), entries.deep_view()),
    {
        let none: Vec<Sha256> = Vec::new();
        assert(none.deep_view() =~= Seq::<Seq<u8>>::empty());
        proof {
            lemma_put_all::<Sha256>(Seq::empty(), entries.deep_view());
        }
        Self { entries: put_all_identities(none, &entries) }
    }

    /// The listing as it is written down: its entries in strict order.
    pub fn into_transport(self) -> (r: crate::transport::Listing)
        ensures
            r.entries.deep_view() == self@,
            strictly_ordered::<Sha256>(self@),
    {
        proof {
            use_type_invariant(&self);
        }
        crate::transport::Listing { entries: self.entries }
    }

    /// The listing as it is written down: its entries in strict order.
    pub fn as_transport(&self) -> (r: crate::transport::Listing)
        ensures
            r.entries.deep_view() == self@,
            strictly_ordered::<Sha256>(self@),
    {
        proof {
            use_type_invariant(self);
        }
        crate::transport::Listing { entries: self.entries.clone() }
    }

    /// The listing that was written down. Entries out of order are refused,
    /// and so is an entry that occurs twice.
    pub fn try_from(transport: crate::transport::Listing) -> (r: Result<Self, Error>)
        ensures
            match r {
                Ok(listing) => strictly_ordered::<Sha256>(transport.entries.deep_view())
                    && listing@ == transport.entries.deep_view(),
                Err(e) => if !ordered::<Sha256>(transport.entries.deep_view()) {
                    e@ == ErrorView::NotSorted(
                        Item::Listing,
                        explained::<Sha256>(transport.entries.deep_view()),
                    )
                } else {
                    !strictly_ordered::<Sha256>(transport.entries.deep_view()) && e@
                        == ErrorView::Duplicate(
                        Item::Listing,
                        explained::<Sha256>(transport.entries.deep_view()),
                    )
                },
            },
    {
        if !is_ordered(&transport.entries) {
            return Err(Error::NotSorted(Item::Listing, explain(&transport.entries)));
        }
        if !is_strictly_ordered(&transport.entries) {
            return Err(Error::Duplicate(Item::Listing, explain(&transport.entries)));
        }
        Ok(Self { entries: transport.entries })
    }
}

impl Clone for Listing {
    fn clone(&self) -> (r: Self)
        ensures
            r@ == self@,
    {
        proof {
            use_type_invariant(self);
        }
        Self { entries: self.entries.clone() }
    }
}

/// An identity is among the entries exactly where its key is.
pub proof fn lemma_identity_has_key(s: Seq<Seq<u8>>, x: Seq<u8>)
    ensures
        has_key::<Sha256>(s, x) <==> s.contains(x),
{
    if has_key::<Sha256>(s, x) {
        let i = choose|i: int| 0 <= i < s.len() && #[trigger] <Sha256 as Keyed>::key(s[i]) == x;
        assert(s[i] == x);
    }
    if s.contains(x) {
        let i = choose|i: int| 0 <= i < s.len() && s[i] == x;
        assert(<Sha256 as Keyed>::key(s[i]) == x);
    }
}

/// The paths with the identity of what each holds, where it can be read.
pub open spec fn identified<F: Filesystem>(fs: F, paths: Seq<Seq<char>>) -> Seq<
    (Seq<char>, Option<Seq<u8>>),
> {
    Seq::new(paths.len(), |i: int| (paths[i], identity_of(fs, paths[i])))
}

/// The first position, from `from` on, of a path that cannot be read.
pub open spec fn first_unreadable<F: Filesystem>(fs: F, paths: Seq<Seq<char>>, from: int) -> Option<
    int,
>
    decreases paths.len() - from,
{
    if from < 0 || from >= paths.len() {
        None
    } else if fs.content(paths[from]) is Err {
        Some(from)
    } else {
        first_unreadable(fs, paths, from + 1)
    }
}

/// The paths of identified files.
pub open spec fn paths_of(identities: Seq<(Seq<char>, Option<Seq<u8>>)>) -> Seq<Seq<char>> {
    Seq::new(identities.len(), |i: int| identities[i].0)
}

/// Identified files are in the strict order of their paths exactly where
/// the paths are.
pub proof fn lemma_paths_order(identities: Seq<(Seq<char>, Option<Seq<u8>>)>)
    ensures
        strictly_ordered::<(String, Option<Sha256>)>(identities) <==> strictly_ordered::<String>(
            paths_of(identities),
        ),
{
    let paths = paths_of(identities);
    if strictly_ordered::<(String, Option<Sha256>)>(identities) {
        assert forall|i: int, j: int| 0 <= i < j < paths.len() implies crate::sorted::key_lt::<
            String,
        >(paths[i], paths[j]) by {
            assert(crate::sorted::key_lt::<(String, Option<Sha256>)>(identities[i], identities[j]));
        }
    }
    if strictly_ordered::<String>(paths) {
        assert forall|i: int, j: int| 0 <= i < j < identities.len() implies crate::sorted::key_lt::<
            (String, Option<Sha256>),
        >(identities[i], identities[j]) by {
            assert(crate::sorted::key_lt::<String>(paths[i], paths[j]));
        }
    }
}

/// A list of paths in strict order.
#[derive(Debug, PartialEq, Eq)]
pub struct FilesManifest {
    paths: Vec<String>,
}

impl View for FilesManifest {
    type V = Seq<Seq<char>>;

    closed spec fn view(&self) -> Seq<Seq<char>> {
        self.paths.deep_view()
    }
}

impl Clone for FilesManifest {
    fn clone(&self) -> (r: Self)
        ensures
            r@ == self@,
    {
        proof {
            use_type_invariant(self);
        }
        Self { paths: copy_texts(&self.paths) }
    }
}

impl FilesManifest {
    #[verifier::type_invariant]
    spec fn is_canonical(&self) -> bool {
        strictly_ordered::<String>(self.paths.deep_view())
    }

    /// The paths. They are in strict order: sorted, and none of them twice.
    pub fn paths(&self) -> (r: &Vec<String>)
        ensures
            r.deep_view() == self@,
            strictly_ordered::<String>(self@),
    {
        proof {
            use_type_invariant(self);
        }
        &self.paths
    }

    /// The manifest of these paths: sorted, each of them once.
    pub fn new(paths: Vec<String>) -> (r: Self)
        ensures
            r@ == put_all::<String>(Seq::empty(), paths.deep_view()),
            forall|path: Seq<char>| #[trigger] r@.contains(path) <==> paths.deep_view().contains(path),
    {
        let none: Vec<String> = Vec::new();
        assert(none.deep_view() =~= Seq::<Seq<char>>::empty());
        proof {
            lemma_put_all_text(Seq::empty(), paths.deep_view());
            assert forall|path: Seq<char>| !Seq::<Seq<char>>::empty().contains(path) by {}
        }
        Self { paths: put_all_texts(none, &paths) }
    }

    /// The manifest of these paths: sorted, each of them once.
    pub fn from_paths(paths: Vec<String>) -> (r: Self)
        ensures
            r@ == put_all::<String>(Seq::empty(), paths.deep_view()),
            forall|path: Seq<char>| #[trigger] r@.contains(path) <==> paths.deep_view().contains(path),
    {
        Self::new(paths)
    }

    /// The manifest as it is written down.
    pub fn into_transport(self) -> (r: crate::transport::FilesManifest)
        ensures
            r.paths.deep_view() == self@,
            strictly_ordered::<String>(self@),
    {
        proof {
            use_type_invariant(&self);
        }
        crate::transport::FilesManifest { paths: self.paths }
    }

    /// The manifest that was written down. Paths that are not in strict
    /// order are refused.
    pub fn try_from_manifest(transport: crate::transport::FilesManifest) -> (r: Result<Self, Error>)
        ensures
            match r {
                Ok(manifest) => strictly_ordered::<String>(transport.paths.deep_view())
                    && manifest@ == transport.paths.deep_view(),
                Err(e) => !strictly_ordered::<String>(transport.paths.deep_view()) && e@
                    == ErrorView::NotSorted(
                    Item::Paths,
                    explained::<String>(transport.paths.deep_view()),
                ),
            },
    {
        if !is_strictly_ordered(&transport.paths) {
            return Err(Error::NotSorted(Item::Paths, explain(&transport.paths)));
        }
        Ok(Self { paths: transport.paths })
    }

    /// The files that belong to a task, discovered on the filesystem from a
    /// description of inputs. A description that can never include a file
    /// is refused before anything is read.
    pub fn try_from_inputs<F: Filesystem>(fs: &F, description: &crate::transport::Inputs) -> (r:
        Result<Self, Error>)
        ensures
            match r {
                Ok(manifest) => !includes_none(*description) && discovered(*fs, *description)
                    == Ok::<Seq<Seq<char>>, ErrorView>(manifest@),
                Err(e) => if includes_none(*description) {
                    e@ == ErrorView::SurelyIncludesNone
                } else {
                    discovered(*fs, *description) == Err::<Seq<Seq<char>>, ErrorView>(e@)
                },
            },
    {
        if surely_includes_none(description) {
            return Err(Error::SurelyIncludesNone);
        }
        match get_matching_input_files(fs, description) {
            Err(e) => Err(e),
            Ok(paths) => Ok(Self { paths }),
        }
    }

    /// The files that a task is expected to write, projected from its
    /// inputs through a description of outputs.
    pub fn try_from_outputs(inputs: &FilesManifest, description: &crate::transport::Outputs) -> (r:
        Result<Self, Error>)
        ensures
            match r {
                Ok(manifest) => projected(inputs@, *description) == Ok::<Seq<Seq<char>>, ErrorView>(
                    manifest@,
                ),
                Err(e) => projected(inputs@, *description) == Err::<Seq<Seq<char>>, ErrorView>(e@),
            },
    {
        match project_outputs(&inputs.paths, description) {
            Err(e) => Err(e),
            Ok(paths) => Ok(Self { paths }),
        }
    }

    /// The paths with the identity of what each holds; a path that cannot
    /// be read has none.
    pub fn into_identified<F: Filesystem>(self, fs: &F) -> (r: FileIdentitiesManifest)
        ensures
            r@ == identified(*fs, self@),
            r.scheme() == IdentityScheme::ContentSha256,
    {
        proof {
            use_type_invariant(&self);
        }
        let ghost paths = self.paths.deep_view();
        let mut identities: Vec<(String, Option<Sha256>)> = Vec::new();
        let mut i: usize = 0;
        while i < self.paths.len()
            invariant
                0 <= i <= self.paths.len(),
                paths == self.paths.deep_view(),
                identities.len() == i,
                forall|k: int|
                    0 <= k < i ==> (#[trigger] identities[k]).deep_view() == (
                        paths[k],
                        identity_of(*fs, paths[k]),
                    ),
            decreases self.paths.len() - i,
        {
            assert(paths[i as int] == self.paths[i as int]@);
            let identity = match ContentSha256::identify_file(fs, self.paths[i].as_str()) {
                Ok(identity) => Some(identity),
                Err(_) => None,
            };
            identities.push((self.paths[i].clone(), identity));
            i += 1;
        }
        proof {
            assert(identities.deep_view() =~= identified(*fs, paths));
            assert(paths_of(identified(*fs, paths)) =~= paths);
            lemma_paths_order(identified(*fs, paths));
        }
        FileIdentitiesManifest { identity_scheme: IdentityScheme::ContentSha256, identities }
    }

    /// The paths with the identity of what each holds. The first path that
    /// cannot be read is an error.
    pub fn try_into_identified<F: Filesystem>(self, fs: &F) -> (r: Result<
        FileIdentitiesManifest,
        Error,
    >)
        ensures
            match r {
                Ok(manifest) => first_unreadable(*fs, self@, 0) is None && manifest@ == identified(
                    *fs,
                    self@,
                ) && manifest.scheme() == IdentityScheme::ContentSha256,
                Err(e) => first_unreadable(*fs, self@, 0) matches Some(at) && 0 <= at < self@.len()
                    && e@ == io_error(
                    Operation::Read,
                    self@[at],
                    fs.content(self@[at])->Err_0,
                ),
            },
    {
        proof {
            use_type_invariant(&self);
        }
        let ghost paths = self.paths.deep_view();
        let mut identities: Vec<(String, Option<Sha256>)> = Vec::new();
        let mut i: usize = 0;
        while i < self.paths.len()
            invariant
                0 <= i <= self.paths.len(),
                paths == self.paths.deep_view(),
                paths == self@,
                identities.len() == i,
                first_unreadable(*fs, paths, 0) == first_unreadable(*fs, paths, i as int),
                forall|k: int|
                    0 <= k < i ==> (#[trigger] identities[k]).deep_view() == (
                        paths[k],
                        identity_of(*fs, paths[k]),
                    ),
            decreases self.paths.len() - i,
        {
            assert(paths[i as int] == self.paths[i as int]@);
            match ContentSha256::identify_file(fs, self.paths[i].as_str()) {
                Ok(identity) => {
                    identities.push((self.paths[i].clone(), Some(identity)));
                },
                Err(e) => {
                    return Err(e);
                },
            }
            i += 1;
        }
        proof {
            assert(identities.deep_view() =~= identified(*fs, paths));
            assert(paths_of(identified(*fs, paths)) =~= paths);
            lemma_paths_order(identified(*fs, paths));
        }
        Ok(FileIdentitiesManifest { identity_scheme: IdentityScheme::ContentSha256, identities })
    }
}

/// Paths in strict order, each with the identity of what it holds, or
/// without one where it could not be read.
#[derive(Debug, PartialEq, Eq)]
pub struct FileIdentitiesManifest {
    identity_scheme: IdentityScheme,
    identities: Vec<(String, Option<Sha256>)>,
}

impl View for FileIdentitiesManifest {
    type V = Seq<(Seq<char>, Option<Seq<u8>>)>;

    closed spec fn view(&self) -> Seq<(Seq<char>, Option<Seq<u8>>)> {
        self.identities.deep_view()
    }
}

/// A copy of identified files.
pub fn copy_identities(identities: &Vec<(String, Option<Sha256>)>) -> (r: Vec<
    (String, Option<Sha256>),
>)
    ensures
        r.deep_view() == identities.deep_view(),
{
    let mut r: Vec<(String, Option<Sha256>)> = Vec::new();
    let mut i: usize = 0;
    while i < identities.len()
        invariant
            0 <= i <= identities.len(),
            r.len() == i,
            forall|k: int| 0 <= k < i ==> r[k].deep_view() == identities[k].deep_view(),
        decreases identities.len() - i,
    {
        r.push((identities[i].0.clone(), identities[i].1));
        i += 1;
    }
    assert(r.deep_view() =~= identities.deep_view());
    r
}

/// Adds every identified file; one that comes later takes the place of one
/// with its path.
fn put_all_identified(
    entries: Vec<(String, Option<Sha256>)>,
    more: &Vec<(String, Option<Sha256>)>,
) -> (r: Vec<(String, Option<Sha256>)>)
    ensures
        r.deep_view() == put_all::<(String, Option<Sha256>)>(entries.deep_view(), more.deep_view()),
{
    let ghost start = entries.deep_view();
    let ghost all = more.deep_view();
    let mut current = entries;
    let mut i: usize = 0;
    assert(all.take(0) =~= Seq::empty());
    while i < more.len()
        invariant
            0 <= i <= more.len(),
            all == more.deep_view(),
            current.deep_view() == put_all::<(String, Option<Sha256>)>(start, all.take(i as int)),
        decreases more.len() - i,
    {
        assert(all.take(i + 1).drop_last() =~= all.take(i as int));
        assert(all.take(i + 1).last() == more[i as int].deep_view());
        put_by_key(&mut current, (more[i].0.clone(), more[i].1));
        i += 1;
    }
    assert(all.take(i as int) =~= all);
    current
}

impl Clone for FileIdentitiesManifest {
    fn clone(&self) -> (r: Self)
        ensures
            r@ == self@,
            r.scheme() == self.scheme(),
    {
        proof {
            use_type_invariant(self);
        }
        Self {
            identity_scheme: self.identity_scheme,
            identities: copy_identities(&self.identities),
        }
    }
}

impl FileIdentitiesManifest {
    #[verifier::type_invariant]
    spec fn is_canonical(&self) -> bool {
        strictly_ordered::<(String, Option<Sha256>)>(self.identities.deep_view())
    }

    /// The scheme in which the files were identified.
    pub closed spec fn scheme(&self) -> IdentityScheme {
        self.identity_scheme
    }

    /// The manifest without files.
    pub fn empty() -> (r: Self)
        ensures
            r@ == Seq::<(Seq<char>, Option<Seq<u8>>)>::empty(),
            r.scheme() == IdentityScheme::ContentSha256,
    {
        let r = Self { identity_scheme: IdentityScheme::ContentSha256, identities: Vec::new() };
        assert(r@ =~= Seq::empty());
        r
    }

    /// The files and their identities, in the strict order of the paths.
    pub fn identities(&self) -> (r: &Vec<(String, Option<Sha256>)>)
        ensures
            r.deep_view() == self@,
            strictly_ordered::<(String, Option<Sha256>)>(self@),
    {
        proof {
            use_type_invariant(self);
        }
        &self.identities
    }

    /// The scheme in which the files were identified.
    pub fn identity_scheme(&self) -> (r: IdentityScheme)
        ensures
            r == self.scheme(),
    {
        self.identity_scheme
    }

    /// The paths of the files, in strict order.
    pub fn paths(&self) -> (r: Vec<String>)
        ensures
            r.deep_view() == paths_of(self@),
            strictly_ordered::<String>(r.deep_view()),
    {
        proof {
            use_type_invariant(self);
            lemma_paths_order(self.identities.deep_view());
        }
        let mut r: Vec<String> = Vec::new();
        let mut i: usize = 0;
        while i < self.identities.len()
            invariant
                0 <= i <= self.identities.len(),
                r.len() == i,
                forall|k: int| 0 <= k < i ==> r[k]@ == self.identities[k].0@,
            decreases self.identities.len() - i,
        {
            r.push(self.identities[i].0.clone());
            i += 1;
        }
        assert(r.deep_view() =~= paths_of(self.identities.deep_view()));
        r
    }

    /// The manifest of these files, sorted by path; of two with one path
    /// the later stays.
    pub fn new(identities: Vec<(String, Option<Sha256>)>) -> (r: Self)
        ensures
            r@ == put_all::<(String, Option<Sha256>)>(Seq::empty(), identities.deep_view()),
            r.scheme() == IdentityScheme::ContentSha256,
    {
        let none: Vec<(String, Option<Sha256>)> = Vec::new();
        assert(none.deep_view() =~= Seq::<(Seq<char>, Option<Seq<u8>>)>::empty());
        proof {
            lemma_put_all::<(String, Option<Sha256>)>(Seq::empty(), identities.deep_view());
        }
        Self {
            identity_scheme: IdentityScheme::ContentSha256,
            identities: put_all_identified(none, &identities),
        }
    }

    /// The manifest of the files that were written down, sorted by path; of
    /// two with one path the later stays.
    pub fn from_transport(transport: crate::transport::FileIdentitiesManifest) -> (r: Self)
        ensures
            r@ == put_all::<(String, Option<Sha256>)>(
                Seq::empty(),
                transport.identities.deep_view(),
            ),
            r.scheme() == transport.identity_scheme,
    {
        let none: Vec<(String, Option<Sha256>)> = Vec::new();
        assert(none.deep_view() =~= Seq::<(Seq<char>, Option<Seq<u8>>)>::empty());
        proof {
            lemma_put_all::<(String, Option<Sha256>)>(
                Seq::empty(),
                transport.identities.deep_view(),
            );
        }
        Self {
            identity_scheme: transport.identity_scheme,
            identities: put_all_identified(none, &transport.identities),
        }
    }

    /// The manifest of the files that were written down, which are left as
    /// they are.
    pub fn from_borrowed_transport(transport: &crate::transport::FileIdentitiesManifest) -> (r:
        Self)
        ensures
            r@ == put_all::<(String, Option<Sha256>)>(
                Seq::empty(),
                transport.identities.deep_view(),
            ),
            r.scheme() == transport.identity_scheme,
    {
        Self::from_transport(
            crate::transport::FileIdentitiesManifest {
                identity_scheme: transport.identity_scheme,
                identities: copy_identities(&transport.identities),
            },
        )
    }

    /// The manifest that was written down. It must be canonical already:
    /// paths that are not in strict order are refused.
    pub fn try_from(transport: crate::transport::FileIdentitiesManifest) -> (r: Result<Self, Error>)
        ensures
            match r {
                Ok(manifest) => strictly_ordered::<(String, Option<Sha256>)>(
                    transport.identities.deep_view(),
                ) && manifest@ == transport.identities.deep_view() && manifest.scheme()
                    == transport.identity_scheme,
                Err(e) => !strictly_ordered::<(String, Option<Sha256>)>(
                    transport.identities.deep_view(),
                ) && e@ == ErrorView::NotSorted(
                    Item::FileIdentities,
                    explained::<(String, Option<Sha256>)>(transport.identities.deep_view()),
                ),
            },
    {
        if !is_strictly_ordered(&transport.identities) {
            return Err(Error::NotSorted(Item::FileIdentities, explain(&transport.identities)));
        }
        Ok(Self { identity_scheme: transport.identity_scheme, identities: transport.identities })
    }

    /// The manifest as it is written down.
    pub fn into_transport(self) -> (r: crate::transport::FileIdentitiesManifest)
        ensures
            r.identities.deep_view() == self@,
            r.identity_scheme == self.scheme(),
            strictly_ordered::<(String, Option<Sha256>)>(self@),
    {
        proof {
            use_type_invariant(&self);
        }
        crate::transport::FileIdentitiesManifest {
            identity_scheme: self.identity_scheme,
            identities: self.identities,
        }
    }

    /// The manifest with one more file; a file with its path gives way.
    pub fn with_file(self, path: String, identity: Option<Sha256>) -> (r: Self)
        ensures
            r@ == put::<(String, Option<Sha256>)>(self@, (path@, identity.deep_view())),
            r.scheme() == self.scheme(),
    {
        proof {
            use_type_invariant(&self);
            lemma_put::<(String, Option<Sha256>)>(
                self.identities.deep_view(),
                (path@, identity.deep_view()),
            );
        }
        let mut identities = self.identities;
        put_by_key(&mut identities, (path, identity));
        Self { identity_scheme: self.identity_scheme, identities }
    }
}

/// A regular expression that compiles.
#[derive(Debug, PartialEq, Eq)]
pub struct RegularExpression {
    regular_expression_string: String,
}

impl View for RegularExpression {
    type V = Seq<char>;

    /// The pattern.
    closed spec fn view(&self) -> Seq<char> {
        self.regular_expression_string@
    }
}

impl DeepView for RegularExpression {
    type V = Seq<char>;

    /// The pattern.
    open spec fn deep_view(&self) -> Seq<char> {
        self@
    }
}

impl Clone for RegularExpression {
    fn clone(&self) -> (r: Self)
        ensures
            r@ == self@,
    {
        proof {
            use_type_invariant(self);
        }
        Self { regular_expression_string: self.regular_expression_string.clone() }
    }
}

impl RegularExpression {
    #[verifier::type_invariant]
    spec fn is_valid(&self) -> bool {
        regex_compiles(self.regular_expression_string@)
    }

    /// The regular expression with this pattern; a pattern that does not
    /// compile is refused.
    pub fn try_from(regular_expression_string: String) -> (r: Result<Self, Error>)
        ensures
            match r {
                Ok(expression) => regex_compiles(regular_expression_string@) && expression@
                    == regular_expression_string@,
                Err(e) => !regex_compiles(regular_expression_string@) && e@ == malformed(
                    regular_expression_string@,
                ),
            },
    {
        if is_regular_expression(regular_expression_string.as_str()) {
            Ok(Self { regular_expression_string })
        } else {
            Err(Error::MalformedRegularExpression { pattern: regular_expression_string })
        }
    }

    /// The regular expression that a manifest holds.
    pub fn try_from_match(transport: Match) -> (r: Result<Self, Error>)
        ensures
            match r {
                Ok(expression) => regex_compiles(transport.match_regular_expression@) && expression@
                    == transport.match_regular_expression@,
                Err(e) => !regex_compiles(transport.match_regular_expression@) && e@ == malformed(
                    transport.match_regular_expression@,
                ),
            },
    {
        Self::try_from(transport.match_regular_expression)
    }

    /// The pattern, which compiles.
    pub fn as_str(&self) -> (r: &str)
        ensures
            r@ == self@,
            regex_compiles(self@),
    {
        proof {
            use_type_invariant(self);
        }
        self.regular_expression_string.as_str()
    }

    /// Whether the expression matches somewhere in the text.
    pub fn is_match(&self, text: &str) -> (r: bool)
        ensures
            r == regex_is_match(self@, text@),
    {
        proof {
            use_type_invariant(self);
        }
        match is_match(self.regular_expression_string.as_str(), text) {
            Some(matched) => matched,
            None => false,
        }
    }

    /// The expression as a manifest holds it.
    pub fn into_transport(self) -> (r: Match)
        ensures
            r.match_regular_expression@ == self@,
    {
        Match { match_regular_expression: self.regular_expression_string }
    }
}

/// A regular expression that compiles, with the templates that replace its
/// matches.
#[derive(Debug, PartialEq, Eq)]
pub struct MatchTransform {
    match_regular_expression: RegularExpression,
    match_transform_expressions: Vec<String>,
}

impl View for MatchTransform {
    type V = (Seq<char>, Seq<Seq<char>>);

    /// The pattern and the templates.
    closed spec fn view(&self) -> (Seq<char>, Seq<Seq<char>>) {
        (self.match_regular_expression@, self.match_transform_expressions.deep_view())
    }
}

impl DeepView for MatchTransform {
    type V = (Seq<char>, Seq<Seq<char>>);

    /// The pattern and the templates.
    open spec fn deep_view(&self) -> (Seq<char>, Seq<Seq<char>>) {
        self@
    }
}

impl Clone for MatchTransform {
    fn clone(&self) -> (r: Self)
        ensures
            r@ == self@,
    {
        Self {
            match_regular_expression: self.match_regular_expression.clone(),
            match_transform_expressions: copy_texts(&self.match_transform_expressions),
        }
    }
}

impl MatchTransform {
    /// The regular expression.
    pub fn match_regular_expression(&self) -> (r: &RegularExpression)
        ensures
            r@ == self@.0,
    {
        &self.match_regular_expression
    }

    /// The templates, in order.
    pub fn match_transform_expressions(&self) -> (r: &Vec<String>)
        ensures
            r.deep_view() == self@.1,
    {
        &self.match_transform_expressions
    }

    /// The transform of this expression and these templates.
    pub fn new(
        match_regular_expression: RegularExpression,
        match_transform_expressions: Vec<String>,
    ) -> (r: Self)
        ensures
            r@ == (match_regular_expression@, match_transform_expressions.deep_view()),
    {
        Self { match_regular_expression, match_transform_expressions }
    }

    /// The transform that a manifest holds; an expression that does not
    /// compile is refused.
    pub fn try_from(transport: MatchTransformTransport) -> (r: Result<Self, Error>)
        ensures
            match r {
                Ok(transform) => regex_compiles(transport.match_regular_expression@) && transform@
                    == transport.deep_view(),
                Err(e) => !regex_compiles(transport.match_regular_expression@) && e@ == malformed(
                    transport.match_regular_expression@,
                ),
            },
    {
        match RegularExpression::try_from(transport.match_regular_expression) {
            Err(e) => Err(e),
            Ok(match_regular_expression) => Ok(
                Self {
                    match_regular_expression,
                    match_transform_expressions: transport.match_transform_expressions,
                },
            ),
        }
    }

    /// The transform as a manifest holds it.
    pub fn into_transport(self) -> (r: MatchTransformTransport)
        ensures
            r.deep_view() == self@,
    {
        MatchTransformTransport {
            match_regular_expression: self.match_regular_expression.into_transport().match_regular_expression,
            match_transform_expressions: self.match_transform_expressions,
        }
    }
}

/// Every pattern compiles.
pub open spec fn patterns_compile(patterns: Seq<Seq<char>>) -> bool {
    forall|i: int| 0 <= i < patterns.len() ==> regex_compiles(#[trigger] patterns[i])
}

/// Every expression of the sequence of transforms compiles.
pub open spec fn transforms_compile(series: Seq<(Seq<char>, Seq<Seq<char>>)>) -> bool {
    forall|i: int| 0 <= i < series.len() ==> regex_compiles((#[trigger] series[i]).0)
}

/// Every expression of every sequence of transforms compiles.
pub open spec fn series_compile(all: Seq<Seq<(Seq<char>, Seq<Seq<char>>)>>) -> bool {
    forall|i: int| 0 <= i < all.len() ==> transforms_compile(#[trigger] all[i])
}

/// What a description of outputs is once it is canonical: each of its
/// three lists in strict order, and every expression compiling.
pub open spec fn canonical_outputs(description: crate::transport::Outputs) -> bool {
    &&& strictly_ordered::<String>(description.include_files.deep_view())
    &&& strictly_ordered::<Vec<MatchTransformTransport>>(
        description.include_match_transforms.deep_view(),
    )
    &&& strictly_ordered::<Match>(description.exclude_matches.deep_view())
    &&& series_compile(description.include_match_transforms.deep_view())
    &&& patterns_compile(description.exclude_matches.deep_view())
}

/// The listed files as a set in strict order; a file that is listed twice
/// is an error.
pub open spec fn listed_once(sofar: Seq<Seq<char>>, files: Seq<Seq<char>>) -> Result<
    Seq<Seq<char>>,
    ErrorView,
>
    decreases files.len(),
{
    if files.len() == 0 {
        Ok(sofar)
    } else if sofar.contains(files[0]) {
        Err(ErrorView::Duplicate(Item::IncludeFiles, explained::<String>(sofar.push(files[0]))))
    } else {
        listed_once(put::<String>(sofar, files[0]), files.drop_first())
    }
}

/// The sequences of transforms as a set in strict order. An expression that
/// does not compile is an error, and so is a sequence that is stated twice,
/// whichever comes first.
pub open spec fn series_once(
    sofar: Seq<Seq<(Seq<char>, Seq<Seq<char>>)>>,
    series: Seq<Seq<(Seq<char>, Seq<Seq<char>>)>>,
) -> Result<Seq<Seq<(Seq<char>, Seq<Seq<char>>)>>, ErrorView>
    decreases series.len(),
{
    if series.len() == 0 {
        Ok(sofar)
    } else {
        match first_uncompiled(series[0], 0) {
            Some(pattern) => Err(malformed(pattern)),
            None => if has_key::<Vec<MatchTransformTransport>>(
                sofar,
                <Vec<MatchTransformTransport> as Keyed>::key(series[0]),
            ) {
                Err(
                    ErrorView::Duplicate(
                        Item::IncludeMatchTransforms,
                        explained::<Vec<MatchTransformTransport>>(sofar.push(series[0])),
                    ),
                )
            } else {
                series_once(put::<Vec<MatchTransformTransport>>(sofar, series[0]), series.drop_first())
            },
        }
    }
}

/// The first pattern of the transforms, from position `from` on, that does
/// not compile.
pub open spec fn first_uncompiled(transforms: Seq<(Seq<char>, Seq<Seq<char>>)>, from: int) -> Option<
    Seq<char>,
>
    decreases transforms.len() - from,
{
    if from < 0 || from >= transforms.len() {
        None
    } else if !regex_compiles(transforms[from].0) {
        Some(transforms[from].0)
    } else {
        first_uncompiled(transforms, from + 1)
    }
}

/// The exclude expressions as a set in strict order. An expression that
/// does not compile is an error, and so is one that is stated twice,
/// whichever comes first.
pub open spec fn matches_once(sofar: Seq<Seq<char>>, excludes: Seq<Seq<char>>) -> Result<
    Seq<Seq<char>>,
    ErrorView,
>
    decreases excludes.len(),
{
    if excludes.len() == 0 {
        Ok(sofar)
    } else if !regex_compiles(excludes[0]) {
        Err(malformed(excludes[0]))
    } else if sofar.contains(excludes[0]) {
        Err(ErrorView::Duplicate(Item::ExcludeMatches, explained::<Match>(sofar.push(excludes[0]))))
    } else {
        matches_once(put::<Match>(sofar, excludes[0]), excludes.drop_first())
    }
}

/// The three lists of a description of outputs, as contracts speak of them.
pub struct OutputsView {
    pub include_files: Seq<Seq<char>>,
    pub include_match_transforms: Seq<Seq<(Seq<char>, Seq<Seq<char>>)>>,
    pub exclude_matches: Seq<Seq<char>>,
}

impl DeepView for crate::transport::Outputs {
    type V = OutputsView;

    open spec fn deep_view(&self) -> OutputsView {
        OutputsView {
            include_files: self.include_files.deep_view(),
            include_match_transforms: self.include_match_transforms.deep_view(),
            exclude_matches: self.exclude_matches.deep_view(),
        }
    }
}

/// What a description of outputs becomes when it is made canonical: its
/// three lists as sets in strict order, or the first error on the way, the
/// listed files first, then the transforms, then the excludes.
pub open spec fn outputs_made_canonical(given: OutputsView) -> Result<OutputsView, ErrorView> {
    match listed_once(Seq::empty(), given.include_files) {
        Err(e) => Err(e),
        Ok(include_files) => match series_once(Seq::empty(), given.include_match_transforms) {
            Err(e) => Err(e),
            Ok(include_match_transforms) => match matches_once(
                Seq::empty(),
                given.exclude_matches,
            ) {
                Err(e) => Err(e),
                Ok(exclude_matches) => Ok(
                    OutputsView { include_files, include_match_transforms, exclude_matches },
                ),
            },
        },
    }
}

/// A pattern is among the expressions exactly where its key is.
pub proof fn lemma_match_has_key(s: Seq<Seq<char>>, x: Seq<char>)
    ensures
        has_key::<Match>(s, <Match as Keyed>::key(x)) <==> s.contains(x),
{
    if has_key::<Match>(s, <Match as Keyed>::key(x)) {
        let i = choose|i: int|
            0 <= i < s.len() && #[trigger] <Match as Keyed>::key(s[i]) == <Match as Keyed>::key(x);
        crate::text::lemma_encoding_injective(s[i], x);
        assert(s[i] == x);
    }
    if s.contains(x) {
        let i = choose|i: int| 0 <= i < s.len() && s[i] == x;
        assert(<Match as Keyed>::key(s[i]) == <Match as Keyed>::key(x));
    }
}

/// The first expression of the transforms that does not compile, as an
/// error.
fn check_series_compiles(transforms: &Vec<MatchTransformTransport>) -> (r: Result<(), Error>)
    ensures
        match r {
            Ok(_) => first_uncompiled(transforms.deep_view(), 0) is None && transforms_compile(
                transforms.deep_view(),
            ),
            Err(e) => first_uncompiled(transforms.deep_view(), 0) matches Some(pattern) && e@
                == malformed(pattern),
        },
{
    let ghost all = transforms.deep_view();
    let mut i: usize = 0;
    while i < transforms.len()
        invariant
            0 <= i <= transforms.len(),
            all == transforms.deep_view(),
            first_uncompiled(all, 0) == first_uncompiled(all, i as int),
            forall|k: int| 0 <= k < i ==> regex_compiles((#[trigger] all[k]).0),
        decreases transforms.len() - i,
    {
        assert(all[i as int] == transforms[i as int].deep_view());
        if !is_regular_expression(transforms[i].match_regular_expression.as_str()) {
            return Err(
                Error::MalformedRegularExpression {
                    pattern: transforms[i].match_regular_expression.clone(),
                },
            );
        }
        i += 1;
    }
    Ok(())
}

/// The listed files as a set in strict order, or the error for a file that
/// is listed twice.
fn list_once(files: Vec<String>) -> (r: Result<Vec<String>, Error>)
    ensures
        same_paths(r, listed_once(Seq::empty(), files.deep_view())),
        r matches Ok(set) ==> strictly_ordered::<String>(set.deep_view()),
{
    let ghost all = files.deep_view();
    let mut rest = files;
    let mut sofar: Vec<String> = Vec::new();
    let ghost mut n: int = 0;
    assert(sofar.deep_view() =~= Seq::<Seq<char>>::empty());
    assert(rest.deep_view() =~= all.skip(0));
    while rest.len() > 0
        invariant
            all == files.deep_view(),
            0 <= n <= all.len(),
            rest.deep_view() == all.skip(n),
            strictly_ordered::<String>(sofar.deep_view()),
            listed_once(Seq::empty(), all) == listed_once(sofar.deep_view(), all.skip(n)),
        decreases rest.len(),
    {
        let ghost before = rest.deep_view();
        let ghost before_items = rest@;
        let ghost shown = sofar.deep_view();
        let x = rest.remove(0);
        proof {
            assert(x.deep_view() == before[0]);
            assert forall|i: int| 0 <= i < rest.len() implies rest.deep_view()[i] == all.skip(
                n + 1,
            )[i] by {
                assert(rest@[i] == before_items[i + 1]);
                assert(before[i + 1] == before_items[i + 1].deep_view());
            }
            assert(rest.deep_view() =~= all.skip(n + 1));
            assert(all.skip(n).drop_first() =~= all.skip(n + 1));
            lemma_text_has_key(shown, x@);
            lemma_put_text(shown, x@);
        }
        if contains_key(&sofar, &x) {
            sofar.push(x);
            assert(sofar.deep_view() =~= shown.push(before[0]));
            return Err(Error::Duplicate(Item::IncludeFiles, explain(&sofar)));
        }
        put_by_key(&mut sofar, x);
        proof {
            n = n + 1;
        }
    }
    Ok(sofar)
}

/// The sequences of transforms as a set in strict order, or the first
/// error on the way.
fn series_set(series: Vec<Vec<MatchTransformTransport>>) -> (r: Result<
    Vec<Vec<MatchTransformTransport>>,
    Error,
>)
    ensures
        match r {
            Ok(set) => series_once(Seq::empty(), series.deep_view()) == Ok::<
                Seq<Seq<(Seq<char>, Seq<Seq<char>>)>>,
                ErrorView,
            >(set.deep_view()) && strictly_ordered::<Vec<MatchTransformTransport>>(set.deep_view())
                && series_compile(set.deep_view()),
            Err(e) => series_once(Seq::empty(), series.deep_view()) == Err::<
                Seq<Seq<(Seq<char>, Seq<Seq<char>>)>>,
                ErrorView,
            >(e@),
        },
{
    let ghost all = series.deep_view();
    let mut rest = series;
    let mut sofar: Vec<Vec<MatchTransformTransport>> = Vec::new();
    let ghost mut n: int = 0;
    assert(sofar.deep_view() =~= Seq::<Seq<(Seq<char>, Seq<Seq<char>>)>>::empty());
    assert(rest.deep_view() =~= all.skip(0));
    while rest.len() > 0
        invariant
            all == series.deep_view(),
            0 <= n <= all.len(),
            rest.deep_view() == all.skip(n),
            strictly_ordered::<Vec<MatchTransformTransport>>(sofar.deep_view()),
            series_compile(sofar.deep_view()),
            series_once(Seq::empty(), all) == series_once(sofar.deep_view(), all.skip(n)),
        decreases rest.len(),
    {
        let ghost before = rest.deep_view();
        let ghost before_items = rest@;
        let ghost shown = sofar.deep_view();
        let x = rest.remove(0);
        proof {
            assert(x.deep_view() == before[0]);
            assert forall|i: int| 0 <= i < rest.len() implies rest.deep_view()[i] == all.skip(
                n + 1,
            )[i] by {
                assert(rest@[i] == before_items[i + 1]);
                assert(before[i + 1] == before_items[i + 1].deep_view());
            }
            assert(rest.deep_view() =~= all.skip(n + 1));
            assert(all.skip(n).drop_first() =~= all.skip(n + 1));
            lemma_put::<Vec<MatchTransformTransport>>(shown, x.deep_view());
        }
        match check_series_compiles(&x) {
            Err(e) => {
                return Err(e);
            },
            Ok(_) => {},
        }
        let ghost added = x.deep_view();
        if contains_key(&sofar, &x) {
            sofar.push(x);
            assert(sofar.deep_view() =~= shown.push(before[0]));
            return Err(Error::Duplicate(Item::IncludeMatchTransforms, explain(&sofar)));
        }
        put_by_key(&mut sofar, x);
        proof {
            let after = sofar.deep_view();
            assert forall|i: int| 0 <= i < after.len() implies transforms_compile(
                #[trigger] after[i],
            ) by {
                assert(after.contains(after[i]));
                if after[i] != added {
                    let k = choose|k: int| 0 <= k < shown.len() && shown[k] == after[i];
                }
            }
            n = n + 1;
        }
    }
    Ok(sofar)
}

/// The exclude expressions as a set in strict order, or the first error on
/// the way.
fn matches_set(excludes: Vec<Match>) -> (r: Result<Vec<Match>, Error>)
    ensures
        match r {
            Ok(set) => matches_once(Seq::empty(), excludes.deep_view()) == Ok::<
                Seq<Seq<char>>,
                ErrorView,
            >(set.deep_view()) && strictly_ordered::<Match>(set.deep_view()) && patterns_compile(
                set.deep_view(),
            ),
            Err(e) => matches_once(Seq::empty(), excludes.deep_view()) == Err::<
                Seq<Seq<char>>,
                ErrorView,
            >(e@),
        },
{
    let ghost all = excludes.deep_view();
    let mut rest = excludes;
    let mut sofar: Vec<Match> = Vec::new();
    let ghost mut n: int = 0;
    assert(sofar.deep_view() =~= Seq::<Seq<char>>::empty());
    assert(rest.deep_view() =~= all.skip(0));
    while rest.len() > 0
        invariant
            all == excludes.deep_view(),
            0 <= n <= all.len(),
            rest.deep_view() == all.skip(n),
            strictly_ordered::<Match>(sofar.deep_view()),
            patterns_compile(sofar.deep_view()),
            matches_once(Seq::empty(), all) == matches_once(sofar.deep_view(), all.skip(n)),
        decreases rest.len(),
    {
        let ghost before = rest.deep_view();
        let ghost before_items = rest@;
        let ghost shown = sofar.deep_view();
        let x = rest.remove(0);
        proof {
            assert(x.deep_view() == before[0]);
            assert forall|i: int| 0 <= i < rest.len() implies rest.deep_view()[i] == all.skip(
                n + 1,
            )[i] by {
                assert(rest@[i] == before_items[i + 1]);
                assert(before[i + 1] == before_items[i + 1].deep_view());
            }
            assert(rest.deep_view() =~= all.skip(n + 1));
            assert(all.skip(n).drop_first() =~= all.skip(n + 1));
            lemma_put::<Match>(shown, x.deep_view());
            lemma_match_has_key(shown, x.deep_view());
        }
        if !is_regular_expression(x.match_regular_expression.as_str()) {
            return Err(Error::MalformedRegularExpression { pattern: x.match_regular_expression });
        }
        let ghost added = x.deep_view();
        if contains_key(&sofar, &x) {
            sofar.push(x);
            assert(sofar.deep_view() =~= shown.push(before[0]));
            return Err(Error::Duplicate(Item::ExcludeMatches, explain(&sofar)));
        }
        put_by_key(&mut sofar, x);
        proof {
            let after = sofar.deep_view();
            assert forall|i: int| 0 <= i < after.len() implies regex_compiles(
                #[trigger] after[i],
            ) by {
                assert(after.contains(after[i]));
                if after[i] != added {
                    let k = choose|k: int| 0 <= k < shown.len() && shown[k] == after[i];
                }
            }
            n = n + 1;
        }
    }
    Ok(sofar)
}

/// The transforms as a manifest holds them.
fn series_of(transforms: &Vec<MatchTransform>) -> (r: Vec<MatchTransformTransport>)
    ensures
        r.deep_view() == transforms.deep_view(),
        transforms_compile(r.deep_view()),
{
    let mut r: Vec<MatchTransformTransport> = Vec::new();
    let mut i: usize = 0;
    while i < transforms.len()
        invariant
            0 <= i <= transforms.len(),
            r.len() == i,
            forall|k: int| 0 <= k < i ==> r[k].deep_view() == transforms[k]@,
            forall|k: int| 0 <= k < i ==> regex_compiles(r[k].match_regular_expression@),
        decreases transforms.len() - i,
    {
        let pattern = transforms[i].match_regular_expression().as_str();
        r.push(
            MatchTransformTransport {
                match_regular_expression: pattern.to_owned(),
                match_transform_expressions: copy_texts(
                    transforms[i].match_transform_expressions(),
                ),
            },
        );
        i += 1;
    }
    assert(r.deep_view() =~= transforms.deep_view());
    assert forall|k: int| 0 <= k < r.deep_view().len() implies regex_compiles(
        (#[trigger] r.deep_view()[k]).0,
    ) by {
        assert(r.deep_view()[k] == r[k].deep_view());
    }
    r
}

/// The sequences of transforms as a set in strict order; one that is given
/// twice is held once.
fn series_put_all(series: &Vec<Vec<MatchTransform>>) -> (r: Vec<Vec<MatchTransformTransport>>)
    ensures
        r.deep_view() == put_all::<Vec<MatchTransformTransport>>(
            Seq::empty(),
            series.deep_view(),
        ),
        strictly_ordered::<Vec<MatchTransformTransport>>(r.deep_view()),
        series_compile(r.deep_view()),
{
    let ghost all = series.deep_view();
    let mut sofar: Vec<Vec<MatchTransformTransport>> = Vec::new();
    let mut i: usize = 0;
    assert(all.take(0) =~= Seq::empty());
    assert(sofar.deep_view() =~= Seq::<Seq<(Seq<char>, Seq<Seq<char>>)>>::empty());
    while i < series.len()
        invariant
            0 <= i <= series.len(),
            all == series.deep_view(),
            sofar.deep_view() == put_all::<Vec<MatchTransformTransport>>(
                Seq::empty(),
                all.take(i as int),
            ),
            strictly_ordered::<Vec<MatchTransformTransport>>(sofar.deep_view()),
            series_compile(sofar.deep_view()),
        decreases series.len() - i,
    {
        let ghost shown = sofar.deep_view();
        let x = series_of(&series[i]);
        let ghost added = x.deep_view();
        proof {
            assert(all.take(i + 1).drop_last() =~= all.take(i as int));
            assert(all.take(i + 1).last() == series[i as int].deep_view());
            lemma_put::<Vec<MatchTransformTransport>>(shown, added);
        }
        put_by_key(&mut sofar, x);
        proof {
            let after = sofar.deep_view();
            assert forall|k: int| 0 <= k < after.len() implies transforms_compile(
                #[trigger] after[k],
            ) by {
                assert(after.contains(after[k]));
                if after[k] != added {
                    let j = choose|j: int| 0 <= j < shown.len() && shown[j] == after[k];
                }
            }
        }
        i += 1;
    }
    assert(all.take(i as int) =~= all);
    sofar
}

/// The expressions as a set in strict order; one that is given twice is
/// held once.
fn matches_put_all(excludes: &Vec<RegularExpression>) -> (r: Vec<Match>)
    ensures
        r.deep_view() == put_all::<Match>(Seq::empty(), excludes.deep_view()),
        strictly_ordered::<Match>(r.deep_view()),
        patterns_compile(r.deep_view()),
{
    let ghost all = excludes.deep_view();
    let mut sofar: Vec<Match> = Vec::new();
    let mut i: usize = 0;
    assert(all.take(0) =~= Seq::empty());
    assert(sofar.deep_view() =~= Seq::<Seq<char>>::empty());
    while i < excludes.len()
        invariant
            0 <= i <= excludes.len(),
            all == excludes.deep_view(),
            sofar.deep_view() == put_all::<Match>(Seq::empty(), all.take(i as int)),
            strictly_ordered::<Match>(sofar.deep_view()),
            patterns_compile(sofar.deep_view()),
        decreases excludes.len() - i,
    {
        let ghost shown = sofar.deep_view();
        let pattern = excludes[i].as_str();
        let x = Match { match_regular_expression: pattern.to_owned() };
        let ghost added = x.deep_view();
        proof {
            assert(all.take(i + 1).drop_last() =~= all.take(i as int));
            assert(all.take(i + 1).last() == excludes[i as int]@);
            lemma_put::<Match>(shown, added);
        }
        put_by_key(&mut sofar, x);
        proof {
            let after = sofar.deep_view();
            assert forall|k: int| 0 <= k < after.len() implies regex_compiles(
                #[trigger] after[k],
            ) by {
                assert(after.contains(after[k]));
                if after[k] != added {
                    let j = choose|j: int| 0 <= j < shown.len() && shown[j] == after[k];
                }
            }
        }
        i += 1;
    }
    assert(all.take(i as int) =~= all);
    sofar
}

/// A description of the files that a task is expected to write: the files
/// that it lists, the sequences of transforms that make outputs of inputs,
/// and the expressions that exclude inputs; each a set in strict order.
#[derive(Debug, PartialEq, Eq)]
pub struct Outputs {
    description: crate::transport::Outputs,
}

impl View for Outputs {
    type V = crate::transport::Outputs;

    /// The description, in canonical form.
    closed spec fn view(&self) -> crate::transport::Outputs {
        self.description
    }
}

/// A copy of transforms.
pub fn copy_transforms(transforms: &Vec<MatchTransformTransport>) -> (r: Vec<
    MatchTransformTransport,
>)
    ensures
        r.deep_view() == transforms.deep_view(),
{
    let mut r: Vec<MatchTransformTransport> = Vec::new();
    let mut i: usize = 0;
    while i < transforms.len()
        invariant
            0 <= i <= transforms.len(),
            r.len() == i,
            forall|k: int| 0 <= k < i ==> r[k].deep_view() == transforms[k].deep_view(),
        decreases transforms.len() - i,
    {
        r.push(
            MatchTransformTransport {
                match_regular_expression: transforms[i].match_regular_expression.clone(),
                match_transform_expressions: copy_texts(&transforms[i].match_transform_expressions),
            },
        );
        i += 1;
    }
    assert(r.deep_view() =~= transforms.deep_view());
    r
}

/// A copy of a description of outputs.
pub fn copy_outputs(description: &crate::transport::Outputs) -> (r: crate::transport::Outputs)
    ensures
        r.deep_view() == description.deep_view(),
{
    let mut series: Vec<Vec<MatchTransformTransport>> = Vec::new();
    let mut i: usize = 0;
    while i < description.include_match_transforms.len()
        invariant
            0 <= i <= description.include_match_transforms.len(),
            series.len() == i,
            forall|k: int|
                0 <= k < i ==> series[k].deep_view()
                    == description.include_match_transforms[k].deep_view(),
        decreases description.include_match_transforms.len() - i,
    {
        series.push(copy_transforms(&description.include_match_transforms[i]));
        i += 1;
    }
    assert(series.deep_view() =~= description.include_match_transforms.deep_view());
    let mut excludes: Vec<Match> = Vec::new();
    let mut j: usize = 0;
    while j < description.exclude_matches.len()
        invariant
            0 <= j <= description.exclude_matches.len(),
            excludes.len() == j,
            forall|k: int|
                0 <= k < j ==> excludes[k].deep_view() == description.exclude_matches[k].deep_view(),
        decreases description.exclude_matches.len() - j,
    {
        excludes.push(
            Match {
                match_regular_expression: description.exclude_matches[j].match_regular_expression.clone(),
            },
        );
        j += 1;
    }
    assert(excludes.deep_view() =~= description.exclude_matches.deep_view());
    crate::transport::Outputs {
        include_files: copy_texts(&description.include_files),
        include_match_transforms: series,
        exclude_matches: excludes,
    }
}

impl Clone for Outputs {
    fn clone(&self) -> (r: Self)
        ensures
            r@.deep_view() == self@.deep_view(),
    {
        proof {
            use_type_invariant(self);
        }
        Self { description: copy_outputs(&self.description) }
    }
}

impl Outputs {
    #[verifier::type_invariant]
    spec fn is_canonical(&self) -> bool {
        canonical_outputs(self.description)
    }

    /// The description that expects no output.
    pub fn empty() -> (r: Self)
        ensures
            r@.include_files@.len() == 0,
            r@.include_match_transforms@.len() == 0,
            r@.exclude_matches@.len() == 0,
    {
        Self { description: crate::transport::Outputs::empty() }
    }

    /// The description of these files, sequences of transforms and exclude
    /// expressions, each taken as a set: what is given twice is held once.
    pub fn new(
        include_files: Vec<String>,
        include_match_transforms: Vec<Vec<MatchTransform>>,
        exclude_matches: Vec<RegularExpression>,
    ) -> (r: Self)
        ensures
            r@.include_files.deep_view() == put_all::<String>(
                Seq::empty(),
                include_files.deep_view(),
            ),
            r@.include_match_transforms.deep_view() == put_all::<Vec<MatchTransformTransport>>(
                Seq::empty(),
                include_match_transforms.deep_view(),
            ),
            r@.exclude_matches.deep_view() == put_all::<Match>(
                Seq::empty(),
                exclude_matches.deep_view(),
            ),
            canonical_outputs(r@),
    {
        let none: Vec<String> = Vec::new();
        assert(none.deep_view() =~= Seq::<Seq<char>>::empty());
        proof {
            lemma_put_all::<String>(Seq::empty(), include_files.deep_view());
        }
        Self {
            description: crate::transport::Outputs {
                include_files: put_all_texts(none, &include_files),
                include_match_transforms: series_put_all(&include_match_transforms),
                exclude_matches: matches_put_all(&exclude_matches),
            },
        }
    }

    /// No sequence of transforms at all.
    pub fn empty_include_match_transforms() -> (r: Vec<Vec<MatchTransform>>)
        ensures
            r@.len() == 0,
    {
        Vec::new()
    }

    /// The description in canonical form.
    pub fn description(&self) -> (r: &crate::transport::Outputs)
        ensures
            *r == self@,
            canonical_outputs(self@),
    {
        proof {
            use_type_invariant(self);
        }
        &self.description
    }

    /// The description that a configuration or a manifest states, in
    /// canonical form. A file, a sequence of transforms or an exclude
    /// expression that is stated twice is refused, and so is an expression
    /// that does not compile.
    pub fn try_from(transport: crate::transport::Outputs) -> (r: Result<Self, Error>)
        ensures
            match r {
                Ok(outputs) => outputs_made_canonical(transport.deep_view()) == Ok::<
                    OutputsView,
                    ErrorView,
                >(outputs@.deep_view()) && canonical_outputs(outputs@),
                Err(e) => outputs_made_canonical(transport.deep_view()) == Err::<
                    OutputsView,
                    ErrorView,
                >(e@),
            },
    {
        let include_files = match list_once(transport.include_files) {
            Ok(set) => set,
            Err(e) => {
                return Err(e);
            },
        };
        let include_match_transforms = match series_set(transport.include_match_transforms) {
            Ok(set) => set,
            Err(e) => {
                return Err(e);
            },
        };
        let exclude_matches = match matches_set(transport.exclude_matches) {
            Ok(set) => set,
            Err(e) => {
                return Err(e);
            },
        };
        Ok(
            Self {
                description: crate::transport::Outputs {
                    include_files,
                    include_match_transforms,
                    exclude_matches,
                },
            },
        )
    }

    /// The description as it is written down: each list in strict order.
    pub fn into_transport(self) -> (r: crate::transport::Outputs)
        ensures
            r == self@,
            canonical_outputs(r),
    {
        proof {
            use_type_invariant(&self);
        }
        self.description
    }

    /// The description as it is written down: each list in strict order.
    pub fn as_transport(&self) -> (r: crate::transport::Outputs)
        ensures
            r.deep_view() == self@.deep_view(),
    {
        copy_outputs(&self.description)
    }
}

/// What a task depends on, as contracts speak of it.
pub struct TaskInputsView {
    pub environment_variables: Seq<(Seq<char>, Seq<char>)>,
    pub program: Seq<char>,
    pub arguments: Seq<Seq<char>>,
    pub input_files: Seq<(Seq<char>, Option<Seq<u8>>)>,
    pub identity_scheme: IdentityScheme,
    pub outputs_description: OutputsView,
}

impl DeepView for crate::transport::TaskInput {
    type V = TaskInputsView;

    open spec fn deep_view(&self) -> TaskInputsView {
        TaskInputsView {
            environment_variables: self.environment_variables.environment_variables.deep_view(),
            program: self.program.program@,
            arguments: self.arguments.arguments.deep_view(),
            input_files: self.input_files.identities.deep_view(),
            identity_scheme: self.input_files.identity_scheme,
            outputs_description: self.outputs_description.deep_view(),
        }
    }
}

/// What a task depends on: its environment, its program, its arguments,
/// its input files with their identities, and the description of its
/// outputs. What is written down of this value is what the task's
/// fingerprint is taken of.
#[derive(Debug, PartialEq, Eq)]
pub struct TaskInputs {
    environment_variables: EnvironmentVariables,
    program: Program,
    arguments: Arguments,
    input_files: FileIdentitiesManifest,
    outputs_description: Outputs,
}

impl View for TaskInputs {
    type V = TaskInputsView;

    closed spec fn view(&self) -> TaskInputsView {
        TaskInputsView {
            environment_variables: self.environment_variables@,
            program: self.program@,
            arguments: self.arguments@,
            input_files: self.input_files@,
            identity_scheme: self.input_files.scheme(),
            outputs_description: self.outputs_description@.deep_view(),
        }
    }
}

impl Clone for TaskInputs {
    fn clone(&self) -> (r: Self)
        ensures
            r@ == self@,
    {
        Self {
            environment_variables: self.environment_variables.clone(),
            program: self.program.clone(),
            arguments: self.arguments.clone(),
            input_files: self.input_files.clone(),
            outputs_description: self.outputs_description.clone(),
        }
    }
}

/// The environment that a manifest holds, which must be canonical already.
pub open spec fn environment_from_manifest(given: Seq<(Seq<char>, Seq<char>)>) -> Result<
    Seq<(Seq<char>, Seq<char>)>,
    ErrorView,
> {
    if !ordered::<(String, String)>(given) {
        Err(ErrorView::NotSorted(Item::EnvironmentVariables, explained::<(String, String)>(given)))
    } else if !given.no_duplicates() {
        Err(ErrorView::Duplicate(Item::EnvironmentVariables, explained::<(String, String)>(given)))
    } else {
        Ok(given)
    }
}

/// The identified files that a manifest holds, which must be in the strict
/// order of their paths.
pub open spec fn identities_from_manifest(given: Seq<(Seq<char>, Option<Seq<u8>>)>) -> Result<
    Seq<(Seq<char>, Option<Seq<u8>>)>,
    ErrorView,
> {
    if !strictly_ordered::<(String, Option<Sha256>)>(given) {
        Err(
            ErrorView::NotSorted(
                Item::FileIdentities,
                explained::<(String, Option<Sha256>)>(given),
            ),
        )
    } else {
        Ok(given)
    }
}

/// The task inputs that a manifest holds, or the first error on the way:
/// the environment first, then the input files, then the outputs.
pub open spec fn task_inputs_from_manifest(given: TaskInputsView) -> Result<
    TaskInputsView,
    ErrorView,
> {
    match environment_from_manifest(given.environment_variables) {
        Err(e) => Err(e),
        Ok(environment_variables) => match identities_from_manifest(given.input_files) {
            Err(e) => Err(e),
            Ok(input_files) => match outputs_made_canonical(given.outputs_description) {
                Err(e) => Err(e),
                Ok(outputs_description) => Ok(
                    TaskInputsView {
                        environment_variables,
                        program: given.program,
                        arguments: given.arguments,
                        input_files,
                        identity_scheme: given.identity_scheme,
                        outputs_description,
                    },
                ),
            },
        },
    }
}

impl TaskInputs {
    /// The description of the outputs, in canonical form.
    pub closed spec fn outputs(&self) -> crate::transport::Outputs {
        self.outputs_description@
    }

    /// The environment, in canonical form.
    pub fn environment_variables(&self) -> (r: &Vec<(String, String)>)
        ensures
            r.deep_view() == self@.environment_variables,
            canonical_environment(self@.environment_variables),
    {
        self.environment_variables.environment_variables()
    }

    /// The path of the program.
    pub fn program(&self) -> (r: &String)
        ensures
            r@ == self@.program,
    {
        self.program.program()
    }

    /// The arguments, in order.
    pub fn arguments(&self) -> (r: &Vec<String>)
        ensures
            r.deep_view() == self@.arguments,
    {
        self.arguments.arguments()
    }

    /// The input files with their identities, in the strict order of their
    /// paths.
    pub fn input_files(&self) -> (r: &Vec<(String, Option<Sha256>)>)
        ensures
            r.deep_view() == self@.input_files,
            strictly_ordered::<(String, Option<Sha256>)>(self@.input_files),
    {
        self.input_files.identities()
    }

    /// The description of the outputs.
    pub fn outputs_description(&self) -> (r: &Outputs)
        ensures
            r@ == self.outputs(),
            r@.deep_view() == self@.outputs_description,
    {
        &self.outputs_description
    }

    /// The inputs of a task that runs `new_program` on the program of this
    /// one: the old program becomes the first argument, and an input file
    /// with its identity. A program that cannot be read is an error.
    pub fn wrap_program<F: Filesystem>(self, fs: &F, new_program: &str) -> (r: Result<Self, Error>)
        ensures
            match r {
                Ok(wrapped) => fs.content(self@.program) is Ok && wrapped@ == (TaskInputsView {
                    program: new_program@,
                    arguments: seq![self@.program] + self@.arguments,
                    input_files: put::<(String, Option<Sha256>)>(
                        self@.input_files,
                        (self@.program, Some(sha256(fs.content(self@.program)->Ok_0))),
                    ),
                    ..self@
                }) && wrapped.outputs().deep_view() == self.outputs().deep_view(),
                Err(e) => fs.content(self@.program) is Err && e@ == io_error(
                    Operation::Read,
                    self@.program,
                    fs.content(self@.program)->Err_0,
                ),
            },
    {
        let identity = match ContentSha256::identify_file(fs, self.program.program().as_str()) {
            Ok(identity) => identity,
            Err(e) => {
                return Err(e);
            },
        };
        let ghost before = self.arguments@;
        let mut arguments: Vec<String> = Vec::new();
        arguments.push(self.program.program().clone());
        let mut i: usize = 0;
        let given = self.arguments.arguments();
        while i < given.len()
            invariant
                0 <= i <= given.len(),
                given.deep_view() == before,
                arguments.deep_view() == seq![self@.program] + before.take(i as int),
            decreases given.len() - i,
        {
            let ghost shown = arguments.deep_view();
            arguments.push(given[i].clone());
            assert(arguments.deep_view() =~= shown.push(given[i as int]@));
            assert(before.take(i + 1) =~= before.take(i as int).push(before[i as int]));
            assert(arguments.deep_view() =~= seq![self@.program] + before.take(i + 1));
            i += 1;
        }
        assert(before.take(i as int) =~= before);
        let path = self.program.program().clone();
        Ok(
            Self {
                environment_variables: self.environment_variables,
                program: Program::new(new_program),
                arguments: Arguments::new(arguments),
                input_files: self.input_files.with_file(path, Some(identity)),
                outputs_description: self.outputs_description,
            },
        )
    }

    /// The inputs of the same task with more arguments before its own.
    pub fn prepend_arguments(self, arguments: Vec<String>) -> (r: Self)
        ensures
            r@ == (TaskInputsView { arguments: arguments.deep_view() + self@.arguments, ..self@ }),
            r.outputs() == self.outputs(),
    {
        let ghost first = arguments.deep_view();
        let ghost before = self.arguments@;
        let mut all = arguments;
        let mut i: usize = 0;
        let given = self.arguments.arguments();
        while i < given.len()
            invariant
                0 <= i <= given.len(),
                given.deep_view() == before,
                all.deep_view() == first + before.take(i as int),
            decreases given.len() - i,
        {
            let ghost shown = all.deep_view();
            all.push(given[i].clone());
            assert(all.deep_view() =~= shown.push(given[i as int]@));
            assert(before.take(i + 1) =~= before.take(i as int).push(before[i as int]));
            assert(all.deep_view() =~= first + before.take(i + 1));
            i += 1;
        }
        assert(before.take(i as int) =~= before);
        Self {
            environment_variables: self.environment_variables,
            program: self.program,
            arguments: Arguments::new(all),
            input_files: self.input_files,
            outputs_description: self.outputs_description,
        }
    }

    /// The inputs of a task, from their parts.
    pub fn new(
        environment_variables: EnvironmentVariables,
        program: Program,
        arguments: Arguments,
        input_files: FileIdentitiesManifest,
        outputs_description: Outputs,
    ) -> (r: Self)
        ensures
            r@ == (TaskInputsView {
                environment_variables: environment_variables@,
                program: program@,
                arguments: arguments@,
                input_files: input_files@,
                identity_scheme: input_files.scheme(),
                outputs_description: outputs_description@.deep_view(),
            }),
            r.outputs() == outputs_description@,
    {
        Self { environment_variables, program, arguments, input_files, outputs_description }
    }

    /// The inputs of a task that a manifest holds. Each part must be
    /// canonical already.
    pub fn try_from(transport: crate::transport::TaskInput) -> (r: Result<Self, Error>)
        ensures
            match r {
                Ok(inputs) => task_inputs_from_manifest(transport.deep_view()) == Ok::<
                    TaskInputsView,
                    ErrorView,
                >(inputs@),
                Err(e) => task_inputs_from_manifest(transport.deep_view()) == Err::<
                    TaskInputsView,
                    ErrorView,
                >(e@),
            },
    {
        let environment_variables = match EnvironmentVariables::try_from_manifest(
            transport.environment_variables,
        ) {
            Ok(environment_variables) => environment_variables,
            Err(e) => {
                return Err(e);
            },
        };
        let input_files = match FileIdentitiesManifest::try_from(transport.input_files) {
            Ok(input_files) => input_files,
            Err(e) => {
                return Err(e);
            },
        };
        let outputs_description = match Outputs::try_from(transport.outputs_description) {
            Ok(outputs_description) => outputs_description,
            Err(e) => {
                return Err(e);
            },
        };
        Ok(
            Self {
                environment_variables,
                program: Program::from(transport.program),
                arguments: Arguments::from(transport.arguments),
                input_files,
                outputs_description,
            },
        )
    }

    /// The inputs of a task as they are written down.
    pub fn into_transport(self) -> (r: crate::transport::TaskInput)
        ensures
            r.deep_view() == self@,
            r.outputs_description == self.outputs(),
    {
        crate::transport::TaskInput {
            environment_variables: self.environment_variables.into_manifest(),
            program: self.program.into_transport(),
            arguments: self.arguments.into_transport(),
            input_files: self.input_files.into_transport(),
            outputs_description: self.outputs_description.into_transport(),
        }
    }

    /// The inputs of a task as they are written down.
    pub fn as_transport(&self) -> (r: crate::transport::TaskInput)
        ensures
            r.deep_view() == self@,
    {
        self.clone().into_transport()
    }
}

/// The paths that a task is expected to write, in strict order: what the
/// description of its outputs makes of its input files.
pub fn get_matching_output_files(inputs: &TaskInputs) -> (r: Result<Vec<String>, Error>)
    ensures
        same_paths(r, projected(paths_of(inputs@.input_files), inputs.outputs())),
        r matches Ok(paths) ==> strictly_ordered::<String>(paths.deep_view()),
{
    let paths = inputs.input_files.paths();
    project_outputs(&paths, inputs.outputs_description.description())
}

/// What a run read and wrote, as contracts speak of it.
pub struct TaskOutputsView {
    pub input_files_with_program: Seq<(Seq<char>, Option<Seq<u8>>)>,
    pub input_identity_scheme: IdentityScheme,
    pub output_files: Seq<(Seq<char>, Option<Seq<u8>>)>,
    pub output_identity_scheme: IdentityScheme,
}

impl DeepView for crate::transport::TaskOutput {
    type V = TaskOutputsView;

    open spec fn deep_view(&self) -> TaskOutputsView {
        TaskOutputsView {
            input_files_with_program: self.input_files_with_program.identities.deep_view(),
            input_identity_scheme: self.input_files_with_program.identity_scheme,
            output_files: self.output_files.identities.deep_view(),
            output_identity_scheme: self.output_files.identity_scheme,
        }
    }
}

/// What a run read and wrote: its input files and its program, and its
/// output files, each with its identity.
#[derive(Debug, PartialEq, Eq)]
pub struct TaskOutputs {
    input_files_with_program: FileIdentitiesManifest,
    output_files: FileIdentitiesManifest,
}

impl View for TaskOutputs {
    type V = TaskOutputsView;

    closed spec fn view(&self) -> TaskOutputsView {
        TaskOutputsView {
            input_files_with_program: self.input_files_with_program@,
            input_identity_scheme: self.input_files_with_program.scheme(),
            output_files: self.output_files@,
            output_identity_scheme: self.output_files.scheme(),
        }
    }
}

impl Clone for TaskOutputs {
    fn clone(&self) -> (r: Self)
        ensures
            r@ == self@,
    {
        Self {
            input_files_with_program: self.input_files_with_program.clone(),
            output_files: self.output_files.clone(),
        }
    }
}

/// The task outputs that a manifest holds, or the first error on the way.
pub open spec fn task_outputs_from_manifest(given: TaskOutputsView) -> Result<
    TaskOutputsView,
    ErrorView,
> {
    match identities_from_manifest(given.input_files_with_program) {
        Err(e) => Err(e),
        Ok(input_files_with_program) => match identities_from_manifest(given.output_files) {
            Err(e) => Err(e),
            Ok(output_files) => Ok(
                TaskOutputsView {
                    input_files_with_program,
                    input_identity_scheme: given.input_identity_scheme,
                    output_files,
                    output_identity_scheme: given.output_identity_scheme,
                },
            ),
        },
    }
}

/// What a run of a task left behind on the filesystem: the input files
/// and the program with their identities, and the identity of every file
/// that the task is expected to write. The program and every one of those
/// files must be readable.
pub open spec fn task_outputs_found<F: Filesystem>(
    fs: F,
    inputs: TaskInputsView,
    outputs: crate::transport::Outputs,
) -> Result<TaskOutputsView, ErrorView> {
    match fs.content(inputs.program) {
        Err(failure) => Err(io_error(Operation::Read, inputs.program, failure)),
        Ok(bytes) => match projected(paths_of(inputs.input_files), outputs) {
            Err(e) => Err(e),
            Ok(paths) => match first_unreadable(fs, paths, 0) {
                Some(at) => Err(io_error(Operation::Read, paths[at], fs.content(paths[at])->Err_0)),
                None => Ok(
                    TaskOutputsView {
                        input_files_with_program: put::<(String, Option<Sha256>)>(
                            inputs.input_files,
                            (inputs.program, Some(sha256(bytes))),
                        ),
                        input_identity_scheme: inputs.identity_scheme,
                        output_files: identified(fs, paths),
                        output_identity_scheme: IdentityScheme::ContentSha256,
                    },
                ),
            },
        },
    }
}

impl TaskOutputs {
    /// The input files and the program, with their identities.
    pub fn input_files_with_program(&self) -> (r: &FileIdentitiesManifest)
        ensures
            r@ == self@.input_files_with_program,
    {
        &self.input_files_with_program
    }

    /// The output files, with their identities.
    pub fn output_files(&self) -> (r: &FileIdentitiesManifest)
        ensures
            r@ == self@.output_files,
    {
        &self.output_files
    }

    /// The outputs of a task, from their parts.
    pub fn new(input_files_with_program: FileIdentitiesManifest, output_files: FileIdentitiesManifest) -> (r:
        Self)
        ensures
            r@ == (TaskOutputsView {
                input_files_with_program: input_files_with_program@,
                input_identity_scheme: input_files_with_program.scheme(),
                output_files: output_files@,
                output_identity_scheme: output_files.scheme(),
            }),
    {
        Self { input_files_with_program, output_files }
    }

    /// The outputs of a task that a manifest holds. Both lists must be in
    /// the strict order of their paths.
    pub fn try_from(transport: crate::transport::TaskOutput) -> (r: Result<Self, Error>)
        ensures
            match r {
                Ok(outputs) => task_outputs_from_manifest(transport.deep_view()) == Ok::<
                    TaskOutputsView,
                    ErrorView,
                >(outputs@),
                Err(e) => task_outputs_from_manifest(transport.deep_view()) == Err::<
                    TaskOutputsView,
                    ErrorView,
                >(e@),
            },
    {
        let input_files_with_program = match FileIdentitiesManifest::try_from(
            transport.input_files_with_program,
        ) {
            Ok(manifest) => manifest,
            Err(e) => {
                return Err(e);
            },
        };
        let output_files = match FileIdentitiesManifest::try_from(transport.output_files) {
            Ok(manifest) => manifest,
            Err(e) => {
                return Err(e);
            },
        };
        Ok(Self { input_files_with_program, output_files })
    }

    /// The outputs of a task as they are written down.
    pub fn into_transport(self) -> (r: crate::transport::TaskOutput)
        ensures
            r.deep_view() == self@,
    {
        crate::transport::TaskOutput {
            input_files_with_program: self.input_files_with_program.into_transport(),
            output_files: self.output_files.into_transport(),
        }
    }

    /// The outputs of a task as they are written down.
    pub fn as_transport(&self) -> (r: crate::transport::TaskOutput)
        ensures
            r.deep_view() == self@,
    {
        self.clone().into_transport()
    }

    /// What a run of the task left behind on the filesystem.
    pub fn try_from_run<F: Filesystem>(fs: &F, inputs: &TaskInputs) -> (r: Result<Self, Error>)
        ensures
            match r {
                Ok(outputs) => task_outputs_found(*fs, inputs@, inputs.outputs()) == Ok::<
                    TaskOutputsView,
                    ErrorView,
                >(outputs@),
                Err(e) => task_outputs_found(*fs, inputs@, inputs.outputs()) == Err::<
                    TaskOutputsView,
                    ErrorView,
                >(e@),
            },
    {
        let program = inputs.program().clone();
        let identity = match ContentSha256::identify_file(fs, program.as_str()) {
            Ok(identity) => identity,
            Err(e) => {
                return Err(e);
            },
        };
        let input_files_with_program = inputs.input_files.clone().with_file(program, Some(identity));
        let paths = match get_matching_output_files(inputs) {
            Ok(paths) => paths,
            Err(e) => {
                return Err(e);
            },
        };
        let expected = FilesManifest { paths };
        match expected.try_into_identified(fs) {
            Err(e) => Err(e),
            Ok(output_files) => Ok(Self { input_files_with_program, output_files }),
        }
    }
}

} // verus!
