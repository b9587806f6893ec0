//! What holds of route selection.

use vstd::prelude::*;
use vstd::utf8::encode_utf8;

use crate::config::{
    ConfigError, ConfigFault, RouteRule, config_fault, first_invalid_method, first_method_fault,
    lemma_no_route_fault, lemma_silent_rules, rule_entries, rule_entry, silent_rules,
};
use crate::gateway::{Destination, destination};
use crate::method::is_method;
use crate::router::{
    Entry, RouteError, TemplateFault, first_route_fault, first_segment_fault, is_catch_all,
    is_parameter, is_pattern, route_selects, routes_select, segment_fault, segments,
    segments_select, template_fault, template_selects,
};
use crate::text::{decimal_text, texts};
use crate::tokens::{lemma_split_nonempty, split};

verus! {

/// A gateway without routes sends every request to the fallback origin.
pub proof fn law_empty_routes_fall_back(method: Seq<char>, path: Seq<char>)
    ensures
        destination(Seq::<Entry>::empty(), method, path) == Destination::Fallback,
{
}

/// A request goes to the service exactly when one of the routes has its method,
/// or no methods at all, and a template that selects its path. Every other
/// request goes to the fallback origin, however many routes there are.
pub proof fn law_unmatched_requests_fall_back(
    routes: Seq<Entry>,
    method: Seq<char>,
    path: Seq<char>,
)
    ensures
        routes_select(routes, method, path) <==> (exists|i: int|
            0 <= i < routes.len() && ((#[trigger] routes[i]).1.contains(method) || routes[i].1
                == Set::<Seq<char>>::empty()) && template_selects(routes[i].0, path)),
        destination(routes, method, path) == Destination::Matched <==> (exists|i: int|
            0 <= i < routes.len() && ((#[trigger] routes[i]).1.contains(method) || routes[i].1
                == Set::<Seq<char>>::empty()) && template_selects(routes[i].0, path)),
        destination(routes, method, path) == Destination::Fallback <==> (forall|i: int|
            0 <= i < routes.len() ==> !(((#[trigger] routes[i]).1.contains(method) || routes[i].1
                == Set::<Seq<char>>::empty()) && template_selects(routes[i].0, path))),
{
    assert forall|i: int| 0 <= i < routes.len() implies route_selects(
        #[trigger] routes[i],
        method,
        path,
    ) == ((routes[i].1.contains(method) || routes[i].1 == Set::<Seq<char>>::empty())
        && template_selects(routes[i].0, path)) by {
        if routes[i].1.is_empty() {
            assert(routes[i].1 =~= Set::<Seq<char>>::empty());
        }
    }
}

/// A route selects a request exactly when it has the request's method, or no
/// methods at all, and its template selects the path.
pub proof fn law_routes_go_by_method_and_path(route: Entry, method: Seq<char>, path: Seq<char>)
    ensures
        route_selects(route, method, path) <==> (route.1.contains(method) || (forall|other: Seq<
            char,
        >| !(#[trigger] route.1.contains(other)))) && template_selects(route.0, path),
{
    if forall|other: Seq<char>| !(#[trigger] route.1.contains(other)) {
        assert(route.1 =~= Set::<Seq<char>>::empty());
    }
}

/// A single route decides alone: with it behind other routes, a request goes to
/// the service if it did before or if the route selects it, and not otherwise.
pub proof fn law_routes_decide_one_by_one(
    routes: Seq<Entry>,
    route: Entry,
    method: Seq<char>,
    path: Seq<char>,
)
    ensures
        destination(routes.push(route), method, path) == Destination::Matched <==> destination(
            routes,
            method,
            path,
        ) == Destination::Matched || route_selects(route, method, path),
{
    let more = routes.push(route);
    if routes_select(routes, method, path) {
        let i = choose|i: int|
            0 <= i < routes.len() && route_selects(#[trigger] routes[i], method, path);
        assert(route_selects(more[i], method, path));
    }
    if route_selects(route, method, path) {
        assert(route_selects(more[routes.len() as int], method, path));
    }
    if routes_select(more, method, path) {
        let i = choose|i: int|
            0 <= i < more.len() && route_selects(#[trigger] more[i], method, path);
        if i < routes.len() {
            assert(route_selects(routes[i], method, path));
        }
    }
}

/// A route table holds every rule: its path, and exactly its methods.
pub proof fn law_tables_hold_every_rule(rules: Seq<RouteRule>, i: int, method: Seq<char>)
    requires
        0 <= i < rules.len(),
    ensures
        rule_entries(rules).len() == rules.len(),
        rule_entries(rules)[i] == rule_entry(rules[i]),
        rule_entries(rules)[i].0 == rules[i].path@,
        rule_entries(rules)[i].1.contains(method) <==> (exists|k: int|
            0 <= k < rules[i].methods@.len() && (#[trigger] rules[i].methods@[k])@ == method),
{
}

/// What a well-formed template selects, on every path. The segments of a path are
/// what stands between its slashes. A segment `:name` stands for any segment that
/// is not empty, a last segment `*name` for one or more of any kind, and every
/// other segment for itself. A path that is not absolute is never selected, but
/// for the empty one, by a lone catch-all; and a path that is too long is
/// selected by its own text only.
pub proof fn law_templates_select_by_segments(template: Seq<char>, path: Seq<char>)
    requires
        template_fault(template) is None,
    ensures
        path.len() > 0 && path[0] == '/' && encode_utf8(path).len() <= 0xFFFF_FFFF ==> (
        template_selects(template, path) <==> {
            let asked = split(template.skip(1), '/');
            let given = split(path.skip(1), '/');
            let open_ended = asked.last().len() > 0 && asked.last()[0] == '*';
            &&& if open_ended {
                given.len() >= asked.len()
            } else {
                given.len() == asked.len()
            }
            &&& forall|i: int|
                0 <= i < asked.len() && !(open_ended && i == asked.len() - 1) ==> if (
                #[trigger] asked[i]).len() > 0 && asked[i][0] == ':' {
                    given[i].len() > 0
                } else {
                    given[i] == asked[i]
                }
        }),
        path.len() > 0 && path[0] != '/' ==> !template_selects(template, path),
        path.len() == 0 ==> (template_selects(template, path) <==> {
            let asked = split(template.skip(1), '/');
            asked.len() == 1 && asked[0].len() > 0 && asked[0][0] == '*'
        }),
        encode_utf8(path).len() > 0xFFFF_FFFF && template_selects(template, path) ==> path
            == template,
{
    let asked = segments(template);
    lemma_split_nonempty(template.skip(1), '/');
    lemma_well_formed(asked, 0);
    if path.len() > 0 && path[0] == '/' && encode_utf8(path).len() <= 0xFFFF_FFFF {
        law_selection_goes_by_segments(template, path);
        let given = segments(path);
        let open_ended = is_catch_all(asked.last());
        if segments_select(asked, given) {
            assert forall|i: int|
                0 <= i < asked.len() && !(open_ended && i == asked.len() - 1) implies if (
            #[trigger] asked[i]).len() > 0 && asked[i][0] == ':' {
                given[i].len() > 0
            } else {
                given[i] == asked[i]
            } by {
                assert(is_parameter(asked[i]) == (asked[i].len() > 0 && asked[i][0] == ':'));
            }
        }
    }
    if path.len() == 0 {
        let given = seq![path];
        assert(template.len() > 0);
        if is_pattern(template) {
            if segments_select(asked, given) && !is_catch_all(asked.last()) {
                assert(asked.len() == 1);
                let i = choose|i: int|
                    0 <= i < asked.len() && (is_parameter(#[trigger] asked[i]) || is_catch_all(
                        asked[i],
                    ));
                assert(asked[i] == asked.last());
                assert(is_parameter(asked[0]));
                assert(given[0].len() == 0);
                assert(false);
            }
        } else if asked.len() == 1 && asked[0].len() > 0 && asked[0][0] == '*' {
            assert(is_catch_all(asked[0]));
        }
    }
}

proof fn lemma_well_formed(all: Seq<Seq<char>>, start: int)
    requires
        0 <= start,
    ensures
        first_segment_fault(all, start) is None <==> (forall|i: int|
            start <= i < all.len() ==> segment_fault(#[trigger] all[i], i + 1 == all.len())
                is None),
    decreases all.len() - start,
{
    if start < all.len() {
        lemma_well_formed(all, start + 1);
        if first_segment_fault(all, start) is None {
            assert forall|i: int| start <= i < all.len() implies segment_fault(
                #[trigger] all[i],
                i + 1 == all.len(),
            ) is None by {
                if i != start {
                    assert(start + 1 <= i);
                }
            }
        }
    }
}

/// A template is well formed exactly when it starts with a slash, no segment is a
/// bare `:` or `*`, and only the last segment starts with `*`.
pub proof fn law_well_formed_templates(template: Seq<char>)
    ensures
        template_fault(template) is None <==> template.len() > 0 && template[0] == '/' && (forall|
            i: int,
        |
            0 <= i < split(template.skip(1), '/').len() ==> {
                let segment = #[trigger] split(template.skip(1), '/')[i];
                segment.len() > 0 ==> (segment[0] == ':' ==> segment.len() > 1) && (segment[0]
                    == '*' ==> segment.len() > 1 && i == split(template.skip(1), '/').len() - 1)
            }),
        template_fault(template) == Some(TemplateFault::RelativePath) <==> template.len() == 0
            || template[0] != '/',
{
    let all = split(template.skip(1), '/');
    lemma_well_formed(all, 0);
    if first_segment_fault(all, 0) is None {
        assert forall|i: int| 0 <= i < all.len() implies {
            let segment = #[trigger] all[i];
            segment.len() > 0 ==> (segment[0] == ':' ==> segment.len() > 1) && (segment[0] == '*'
                ==> segment.len() > 1 && i == all.len() - 1)
        } by {
            assert(segment_fault(all[i], i + 1 == all.len()) is None);
        }
    }
    if forall|i: int|
        0 <= i < all.len() ==> {
            let segment = #[trigger] all[i];
            segment.len() > 0 ==> (segment[0] == ':' ==> segment.len() > 1) && (segment[0] == '*'
                ==> segment.len() > 1 && i == all.len() - 1)
        } {
        assert forall|i: int| 0 <= i < all.len() implies segment_fault(
            #[trigger] all[i],
            i + 1 == all.len(),
        ) is None by {
            let segment = all[i];
            assert(segment.len() > 0 ==> (segment[0] == ':' ==> segment.len() > 1) && (segment[0]
                == '*' ==> segment.len() > 1 && i == all.len() - 1));
        }
    }
    lemma_no_relative_segments(all, 0);
}

proof fn lemma_no_relative_segments(all: Seq<Seq<char>>, start: int)
    requires
        0 <= start,
    ensures
        first_segment_fault(all, start) != Some(TemplateFault::RelativePath),
    decreases all.len() - start,
{
    if start < all.len() {
        lemma_no_relative_segments(all, start + 1);
    }
}

/// The fault of an absolute template is that of its first faulty segment: a bare
/// `:` is an empty parameter; a bare `*`, or one that is not in the last segment,
/// is an invalid catch-all.
pub proof fn law_first_faulty_segment_counts(template: Seq<char>, i: int)
    requires
        template.len() > 0,
        template[0] == '/',
        0 <= i < split(template.skip(1), '/').len(),
        forall|j: int|
            0 <= j < i ==> {
                let segment = #[trigger] split(template.skip(1), '/')[j];
                segment.len() > 0 ==> (segment[0] == ':' ==> segment.len() > 1) && segment[0] != '*'
            },
    ensures
        split(template.skip(1), '/')[i] == seq![':'] ==> template_fault(template) == Some(
            TemplateFault::EmptyParameter,
        ),
        split(template.skip(1), '/')[i].len() > 0 && split(template.skip(1), '/')[i][0] == '*' && (
        split(template.skip(1), '/')[i].len() == 1 || i < split(template.skip(1), '/').len() - 1)
            ==> template_fault(template) == Some(TemplateFault::InvalidCatchAll),
{
    let all = split(template.skip(1), '/');
    assert forall|j: int| 0 <= j < i implies segment_fault(
        #[trigger] all[j],
        j + 1 == all.len(),
    ) is None by {
        let segment = all[j];
        assert(segment.len() > 0 ==> (segment[0] == ':' ==> segment.len() > 1) && segment[0] != '*');
    }
    lemma_fault_from(all, 0, i);
}

proof fn lemma_fault_from(all: Seq<Seq<char>>, start: int, i: int)
    requires
        0 <= start <= i < all.len(),
        forall|j: int|
            start <= j < i ==> segment_fault(#[trigger] all[j], j + 1 == all.len()) is None,
    ensures
        segment_fault(all[i], i + 1 == all.len()) is Some ==> first_segment_fault(all, start)
            == segment_fault(all[i], i + 1 == all.len()),
    decreases i - start,
{
    if start < i {
        assert(segment_fault(all[start], start + 1 == all.len()) is None);
        lemma_fault_from(all, start + 1, i);
    }
}

/// The first text that is no method, in the first rule that has one, is what a
/// configuration is refused for, whatever its templates are.
pub proof fn law_first_invalid_method_counts(rules: Seq<RouteRule>, i: int, k: int)
    requires
        0 <= i < rules.len(),
        0 <= k < rules[i].methods@.len(),
        !is_method(rules[i].methods@[k]@),
        forall|m: int| 0 <= m < k ==> is_method((#[trigger] rules[i].methods@[m])@),
        forall|j: int, m: int|
            0 <= j < i && 0 <= m < rules[j].methods@.len() ==> is_method(
                (#[trigger] rules[j].methods@[m])@,
            ),
    ensures
        config_fault(rules) == Some(ConfigFault::InvalidMethod(i, rules[i].methods@[k]@)),
{
    lemma_invalid_method_from(rules[i].methods@, 0, k);
    lemma_method_fault_from(rules, 0, i);
}

proof fn lemma_invalid_method_from(list: Seq<String>, start: int, k: int)
    requires
        0 <= start <= k < list.len(),
        !is_method(list[k]@),
        forall|m: int| start <= m < k ==> is_method((#[trigger] list[m])@),
    ensures
        first_invalid_method(list, start) == Some(list[k]@),
    decreases k - start,
{
    if start < k {
        assert(is_method(list[start]@));
        lemma_invalid_method_from(list, start + 1, k);
    }
}

proof fn lemma_method_fault_from(rules: Seq<RouteRule>, start: int, i: int)
    requires
        0 <= start <= i < rules.len(),
        first_invalid_method(rules[i].methods@, 0) is Some,
        forall|j: int, m: int|
            start <= j < i && 0 <= m < rules[j].methods@.len() ==> is_method(
                (#[trigger] rules[j].methods@[m])@,
            ),
    ensures
        first_method_fault(rules, start) == Some(
            (i, first_invalid_method(rules[i].methods@, 0)->0),
        ),
    decreases i - start,
{
    if start < i {
        lemma_no_invalid_method(rules[start].methods@, 0);
        lemma_method_fault_from(rules, start + 1, i);
    }
}

/// Where all methods are valid, the first rule with a faulty template is what a
/// configuration is refused for.
pub proof fn law_first_faulty_template_counts(rules: Seq<RouteRule>, i: int)
    requires
        0 <= i < rules.len(),
        template_fault(rules[i].path@) is Some,
        forall|j: int| 0 <= j < i ==> template_fault((#[trigger] rules[j]).path@) is None,
        forall|j: int, m: int|
            0 <= j < rules.len() && 0 <= m < rules[j].methods@.len() ==> is_method(
                (#[trigger] rules[j].methods@[m])@,
            ),
    ensures
        config_fault(rules) == Some(
            ConfigFault::Route(template_fault(rules[i].path@)->0, i, rules[i].path@),
        ),
{
    lemma_no_method_fault(rules, 0);
    assert forall|j: int| 0 <= j < rules.len() implies first_invalid_method(
        (#[trigger] rules[j]).methods@,
        0,
    ) is None by {
        lemma_no_invalid_method(rules[j].methods@, 0);
    }
    let entries = rule_entries(rules);
    assert forall|j: int| 0 <= j < i implies template_fault((#[trigger] entries[j]).0) is None by {
        assert(entries[j].0 == rules[j].path@);
    }
    lemma_route_fault_from(entries, 0, i);
}

proof fn lemma_route_fault_from(routes: Seq<Entry>, start: int, i: int)
    requires
        0 <= start <= i < routes.len(),
        template_fault(routes[i].0) is Some,
        forall|j: int| start <= j < i ==> template_fault((#[trigger] routes[j]).0) is None,
    ensures
        first_route_fault(routes, start) == Some(
            (template_fault(routes[i].0)->0, i, routes[i].0),
        ),
    decreases i - start,
{
    if start < i {
        assert(template_fault(routes[start].0) is None);
        lemma_route_fault_from(routes, start + 1, i);
    }
}

/// What an error shows of a configuration: its kind, the rule and the text, all
/// as they are.
pub proof fn law_errors_show_the_fault(error: ConfigError)
    ensures
        error matches ConfigError::InvalidMethod { index, method } ==> error@
            == ConfigFault::InvalidMethod(index as int, method@),
        error matches ConfigError::Route(RouteError::RelativePath { index, path }) ==> error@
            == ConfigFault::Route(TemplateFault::RelativePath, index as int, path@),
        error matches ConfigError::Route(RouteError::EmptyParameter { index, path }) ==> error@
            == ConfigFault::Route(TemplateFault::EmptyParameter, index as int, path@),
        error matches ConfigError::Route(RouteError::InvalidCatchAll { index, path }) ==> error@
            == ConfigFault::Route(TemplateFault::InvalidCatchAll, index as int, path@),
{
}

/// What an error says of a configuration: the rule, the problem and the text.
pub proof fn law_errors_say_the_fault(error: ConfigError)
    ensures
        error matches ConfigError::InvalidMethod { index, method } ==> error.text() == "route "@
            + decimal_text(index as nat) + " has invalid HTTP method: "@ + method@,
        error matches ConfigError::Route(RouteError::RelativePath { index, path }) ==> error.text()
            == "route "@ + decimal_text(index as nat) + " path must start with '/': "@ + path@,
        error matches ConfigError::Route(RouteError::EmptyParameter { index, path })
            ==> error.text() == "route "@ + decimal_text(index as nat)
            + " has an empty parameter segment: "@ + path@,
        error matches ConfigError::Route(RouteError::InvalidCatchAll { index, path })
            ==> error.text() == "route "@ + decimal_text(index as nat)
            + " has an invalid catch-all segment: "@ + path@,
{
}

/// A template without parameters and catch-alls selects the one path that it
/// spells.
pub proof fn law_literal_templates_are_exact(template: Seq<char>, path: Seq<char>)
    requires
        forall|i: int|
            0 <= i < segments(template).len() ==> !is_parameter(#[trigger] segments(template)[i])
                && !is_catch_all(segments(template)[i]),
    ensures
        template_selects(template, path) <==> path == template,
{
}

/// A well-formed template selects an absolute path exactly when the segments of
/// the path are those that the template asks for: the same segment for a literal
/// one, any non-empty segment for a parameter, and any segments, but at least
/// one, for a catch-all.
pub proof fn law_selection_goes_by_segments(template: Seq<char>, path: Seq<char>)
    requires
        template_fault(template) is None,
        path.len() > 0,
        path[0] == '/',
        encode_utf8(path).len() <= u32::MAX,
    ensures
        template_selects(template, path) <==> segments_select(segments(template), segments(path)),
{
    if !is_pattern(template) {
        let expected = segments(template);
        lemma_split_nonempty(template.skip(1), '/');
        assert(!is_catch_all(expected[expected.len() - 1]));
        if segments_select(expected, segments(path)) {
            assert(segments(path) =~= expected);
            lemma_split_injective(template.skip(1), path.skip(1), '/');
            assert(template =~= seq!['/'] + template.skip(1));
            assert(path =~= seq!['/'] + path.skip(1));
        }
    }
}

/// A sequence is known by its pieces.
proof fn lemma_split_injective<T>(a: Seq<T>, b: Seq<T>, separator: T)
    requires
        split(a, separator) == split(b, separator),
    ensures
        a == b,
    decreases a.len(),
{
    let pieces = split(a, separator);
    lemma_split_nonempty(a, separator);
    if a.len() > 0 {
        lemma_split_nonempty(a.drop_last(), separator);
    }
    if b.len() > 0 {
        lemma_split_nonempty(b.drop_last(), separator);
    }
    if a.len() == 0 {
        assert(pieces.last() == a);
        assert(b.len() == 0);
    } else if b.len() == 0 {
        assert(pieces.last() == b);
        assert(false);
    } else {
        let left = split(a.drop_last(), separator);
        let right = split(b.drop_last(), separator);
        assert((a.last() == separator) == (pieces.last().len() == 0));
        assert((b.last() == separator) == (pieces.last().len() == 0));
        if a.last() == separator {
            assert(left =~= pieces.drop_last());
            assert(right =~= pieces.drop_last());
        } else {
            assert(pieces.last().last() == a.last());
            assert(pieces.last().last() == b.last());
            assert(left.last() =~= pieces.last().drop_last());
            assert(right.last() =~= pieces.last().drop_last());
            assert(left.drop_last() =~= pieces.drop_last());
            assert(right.drop_last() =~= pieces.drop_last());
            assert(left =~= left.drop_last().push(left.last()));
            assert(right =~= right.drop_last().push(right.last()));
        }
        lemma_split_injective(a.drop_last(), b.drop_last(), separator);
        assert(a =~= a.drop_last().push(a.last()));
        assert(b =~= b.drop_last().push(b.last()));
    }
}

/// A template without a catch-all selects only paths with as many segments, and
/// with a non-empty segment in the place of each parameter.
pub proof fn law_parameters_stand_for_one_segment(template: Seq<char>, path: Seq<char>)
    requires
        template_fault(template) is None,
        !is_catch_all(segments(template).last()),
        template_selects(template, path),
    ensures
        path.len() > 0 ==> segments(path).len() == segments(template).len(),
        path.len() > 0 ==> forall|i: int|
            0 <= i < segments(template).len() && is_parameter(#[trigger] segments(template)[i])
                ==> segments(path)[i].len() > 0,
{
}

/// A catch-all stands for at least one segment: the path before it alone is not
/// selected.
pub proof fn law_catch_all_needs_a_segment(template: Seq<char>, path: Seq<char>)
    requires
        template_fault(template) is None,
        is_catch_all(segments(template).last()),
        path.len() > 0,
        segments(path).len() < segments(template).len(),
    ensures
        !template_selects(template, path),
{
    let all = segments(template);
    assert(is_catch_all(all[all.len() - 1]));
}

/// A rule without methods selects its paths for every method.
pub proof fn law_no_methods_mean_every_method(rule: RouteRule, method: Seq<char>, path: Seq<char>)
    requires
        rule.methods@.len() == 0,
    ensures
        route_selects(rule_entry(rule), method, path) <==> template_selects(rule.path@, path),
{
    assert(texts(rule.methods@) =~= Set::empty());
}

/// A rule with methods selects a request exactly when the request's method is
/// one of them and its path is one of the template's.
pub proof fn law_methods_restrict(rule: RouteRule, method: Seq<char>, path: Seq<char>)
    requires
        rule.methods@.len() > 0,
    ensures
        route_selects(rule_entry(rule), method, path) <==> template_selects(rule.path@, path) && (
        exists|k: int| 0 <= k < rule.methods@.len() && (#[trigger] rule.methods@[k])@ == method),
{
    assert(texts(rule.methods@).contains(rule.methods@[0]@));
}

/// Which requests are selected depends on the routes, not on their order or
/// number.
pub proof fn law_route_order_is_irrelevant(
    a: Seq<Entry>,
    b: Seq<Entry>,
    method: Seq<char>,
    path: Seq<char>,
)
    requires
        forall|route: Entry| a.contains(route) <==> b.contains(route),
    ensures
        routes_select(a, method, path) == routes_select(b, method, path),
{
    if routes_select(a, method, path) {
        let i = choose|i: int| 0 <= i < a.len() && route_selects(#[trigger] a[i], method, path);
        assert(a.contains(a[i]));
        let k = choose|k: int| 0 <= k < b.len() && b[k] == a[i];
        assert(route_selects(b[k], method, path));
    }
    if routes_select(b, method, path) {
        let i = choose|i: int| 0 <= i < b.len() && route_selects(#[trigger] b[i], method, path);
        assert(b.contains(b[i]));
        let k = choose|k: int| 0 <= k < a.len() && a[k] == b[i];
        assert(route_selects(a[k], method, path));
    }
}

/// More routes select every request that the fewer selected.
pub proof fn law_more_routes_select_more(
    routes: Seq<Entry>,
    more: Seq<Entry>,
    method: Seq<char>,
    path: Seq<char>,
)
    requires
        routes_select(routes, method, path),
    ensures
        routes_select(routes + more, method, path),
        routes_select(more + routes, method, path),
{
    let i = choose|i: int|
        0 <= i < routes.len() && route_selects(#[trigger] routes[i], method, path);
    assert((routes + more)[i] == routes[i]);
    assert((more + routes)[more.len() + i] == routes[i]);
}

/// A configuration compiles exactly when every method is a token and every path
/// is a well-formed template.
pub proof fn law_valid_configurations_compile(rules: Seq<RouteRule>)
    ensures
        config_fault(rules) is None <==> (forall|i: int|
            #![trigger rules[i]]
            0 <= i < rules.len() ==> template_fault(rules[i].path@) is None && (forall|k: int|
                0 <= k < rules[i].methods@.len() ==> is_method(
                    (#[trigger] rules[i].methods@[k])@,
                ))),
{
    lemma_no_method_fault(rules, 0);
    lemma_no_route_fault(rule_entries(rules), 0);
    if config_fault(rules) is None {
        assert forall|i: int| #![trigger rules[i]] 0 <= i < rules.len() implies template_fault(
            rules[i].path@,
        ) is None && (forall|k: int|
            0 <= k < rules[i].methods@.len() ==> is_method((#[trigger] rules[i].methods@[k])@)) by {
            assert(rule_entries(rules)[i].0 == rules[i].path@);
            lemma_no_invalid_method(rules[i].methods@, 0);
        }
    }
    if forall|i: int|
        #![trigger rules[i]]
        0 <= i < rules.len() ==> template_fault(rules[i].path@) is None && (forall|k: int|
            0 <= k < rules[i].methods@.len() ==> is_method((#[trigger] rules[i].methods@[k])@)) {
        assert forall|i: int| 0 <= i < rules.len() implies first_invalid_method(
            (#[trigger] rules[i]).methods@,
            0,
        ) is None by {
            lemma_no_invalid_method(rules[i].methods@, 0);
        }
        assert forall|i: int| 0 <= i < rules.len() implies template_fault(
            (#[trigger] rule_entries(rules)[i]).0,
        ) is None by {
            assert(rule_entries(rules)[i].0 == rules[i].path@);
        }
    }
}

proof fn lemma_no_invalid_method(list: Seq<String>, start: int)
    requires
        0 <= start,
    ensures
        first_invalid_method(list, start) is None <==> (forall|k: int|
            start <= k < list.len() ==> is_method((#[trigger] list[k])@)),
    decreases list.len() - start,
{
    if start < list.len() {
        lemma_no_invalid_method(list, start + 1);
        if first_invalid_method(list, start) is None {
            assert forall|k: int| start <= k < list.len() implies is_method(
                (#[trigger] list[k])@,
            ) by {
                if k != start {
                    assert(start + 1 <= k);
                }
            }
        }
    }
}

proof fn lemma_no_method_fault(rules: Seq<RouteRule>, start: int)
    requires
        0 <= start,
    ensures
        first_method_fault(rules, start) is None <==> (forall|i: int|
            start <= i < rules.len() ==> first_invalid_method(
                (#[trigger] rules[i]).methods@,
                0,
            ) is None),
    decreases rules.len() - start,
{
    if start < rules.len() {
        lemma_no_method_fault(rules, start + 1);
        if first_method_fault(rules, start) is None {
            assert forall|i: int| start <= i < rules.len() implies first_invalid_method(
                (#[trigger] rules[i]).methods@,
                0,
            ) is None by {
                if i != start {
                    assert(start + 1 <= i);
                }
            }
        }
    }
}

/// Whether two rules have the same methods and the same path.
pub open spec fn same_route(a: RouteRule, b: RouteRule) -> bool {
    &&& a.path@ == b.path@
    &&& a.methods@.len() == b.methods@.len()
    &&& forall|k: int| 0 <= k < a.methods@.len() ==> (#[trigger] a.methods@[k])@ == b.methods@[k]@
}

/// Whether routes are logged changes neither which configurations compile nor
/// which requests are selected.
pub proof fn law_log_flags_do_not_change_matching(a: Seq<RouteRule>, b: Seq<RouteRule>)
    requires
        a.len() == b.len(),
        forall|i: int| 0 <= i < a.len() ==> same_route(#[trigger] a[i], b[i]),
    ensures
        rule_entries(a) == rule_entries(b),
        config_fault(a) == config_fault(b),
{
    assert forall|i: int| 0 <= i < a.len() implies rule_entry(#[trigger] a[i]) == rule_entry(
        b[i],
    ) by {
        assert(same_route(a[i], b[i]));
        assert forall|text: Seq<char>| texts(a[i].methods@).contains(text) implies texts(
            b[i].methods@,
        ).contains(text) by {
            let k = choose|k: int|
                0 <= k < a[i].methods@.len() && (#[trigger] a[i].methods@[k])@ == text;
            assert(b[i].methods@[k]@ == text);
        }
        assert forall|text: Seq<char>| texts(b[i].methods@).contains(text) implies texts(
            a[i].methods@,
        ).contains(text) by {
            let k = choose|k: int|
                0 <= k < b[i].methods@.len() && (#[trigger] b[i].methods@[k])@ == text;
            assert(a[i].methods@[k]@ == text);
        }
        assert(texts(a[i].methods@) =~= texts(b[i].methods@));
    }
    assert(rule_entries(a) =~= rule_entries(b));
    lemma_same_method_fault(a, b, 0);
}

proof fn lemma_same_method_fault(a: Seq<RouteRule>, b: Seq<RouteRule>, start: int)
    requires
        0 <= start,
        a.len() == b.len(),
        forall|i: int| 0 <= i < a.len() ==> same_route(#[trigger] a[i], b[i]),
    ensures
        first_method_fault(a, start) == first_method_fault(b, start),
    decreases a.len() - start,
{
    if start < a.len() {
        assert(same_route(a[start], b[start]));
        lemma_same_invalid_method(a[start].methods@, b[start].methods@, 0);
        lemma_same_method_fault(a, b, start + 1);
    }
}

proof fn lemma_same_invalid_method(a: Seq<String>, b: Seq<String>, start: int)
    requires
        0 <= start,
        a.len() == b.len(),
        forall|k: int| 0 <= k < a.len() ==> (#[trigger] a[k])@ == b[k]@,
    ensures
        first_invalid_method(a, start) == first_invalid_method(b, start),
    decreases a.len() - start,
{
    if start < a.len() {
        assert(a[start]@ == b[start]@);
        lemma_same_invalid_method(a, b, start + 1);
    }
}

/// A request is left out of the access log exactly when a rule that is not
/// logged selects it, and such a request is selected for the service.
pub proof fn law_unlogged_requests(rules: Seq<RouteRule>, method: Seq<char>, path: Seq<char>)
    ensures
        routes_select(rule_entries(silent_rules(rules)), method, path) <==> (exists|i: int|
            0 <= i < rules.len() && !(#[trigger] rules[i]).log && route_selects(
                rule_entry(rules[i]),
                method,
                path,
            )),
        routes_select(rule_entries(silent_rules(rules)), method, path) ==> destination(
            rule_entries(rules),
            method,
            path,
        ) == Destination::Matched,
{
    let silent = silent_rules(rules);
    lemma_silent_rules(rules);
    if routes_select(rule_entries(silent), method, path) {
        let k = choose|k: int|
            0 <= k < rule_entries(silent).len() && route_selects(
                #[trigger] rule_entries(silent)[k],
                method,
                path,
            );
        assert(rules.contains(silent[k]) && !silent[k].log);
        let i = choose|i: int| 0 <= i < rules.len() && rules[i] == silent[k];
        assert(!rules[i].log && route_selects(rule_entry(rules[i]), method, path));
        assert(rule_entries(rules)[i] == rule_entry(rules[i]));
    }
    if exists|i: int|
        0 <= i < rules.len() && !(#[trigger] rules[i]).log && route_selects(
            rule_entry(rules[i]),
            method,
            path,
        ) {
        let i = choose|i: int|
            0 <= i < rules.len() && !(#[trigger] rules[i]).log && route_selects(
                rule_entry(rules[i]),
                method,
                path,
            );
        assert(silent.contains(rules[i]));
        let k = choose|k: int| 0 <= k < silent.len() && silent[k] == rules[i];
        assert(rule_entries(silent)[k] == rule_entry(rules[i]));
        assert(route_selects(rule_entries(silent)[k], method, path));
    }
}

} // verus!
