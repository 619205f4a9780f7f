//! What a request asks for, and how it is answered.

use vstd::prelude::*;
use vstd::utf8::*;

use crate::cli::CliView;
use crate::fsx::{config_verdict, Config};
use crate::http::{
    asked_cli, asked_config, asked_run, capped_product, endpoint_text, error_body, escaped,
    failed_front, json_text, own_dir, response_text, routed, run_route, EndpointOutcome, RouteView,
};
use crate::numbers::{digit_value, digits_from, number_of, positive_of};
use crate::params::{
    component, decoded, flag_param, hex_pair, name_and_value, number_param, params_from,
    query_params,
};
use crate::paths::path_parts;
use crate::strings::{cut_at, lines_of, place_of, second_piece, words_of};
use crate::text::{dec, joined};

verus! {

/// The number that decimal digits make.
pub open spec fn decimal(s: Seq<char>) -> nat
    decreases s.len(),
{
    if s.len() == 0 {
        0
    } else {
        (10 * decimal(s.drop_last()) + (s.last() as int - '0' as int)) as nat
    }
}

pub open spec fn all_digits(s: Seq<char>) -> bool {
    forall|i: int| 0 <= i < s.len() ==> '0' <= #[trigger] s[i] <= '9'
}

/// Whether the text shows the number `n`: in decimal digits, at least one, with or without a
/// plus sign in front.
pub open spec fn shows(s: Seq<char>, n: int) -> bool {
    ||| s.len() > 0 && all_digits(s) && decimal(s) == n
    ||| s.len() > 1 && s[0] == '+' && all_digits(s.skip(1)) && decimal(s.skip(1)) == n
}

/// Whether the parameters hold the number `n` under the name.
pub open spec fn holds(p: Map<Seq<char>, Seq<char>>, name: Seq<char>, n: int) -> bool {
    p.dom().contains(name) && shows(p[name], n)
}

/// Whether the parameter is missing, or a number from `min` to `max`.
pub open spec fn fine(p: Map<Seq<char>, Seq<char>>, name: Seq<char>, min: int, max: int) -> bool {
    p.dom().contains(name) ==> exists|n: int| #[trigger] shows(p[name], n) && min <= n <= max
}

proof fn lemma_prefix_is_less(s: Seq<char>, i: int)
    requires
        all_digits(s),
        0 <= i <= s.len(),
    ensures
        decimal(s.take(i)) <= decimal(s),
    decreases s.len() - i,
{
    if i < s.len() {
        lemma_prefix_is_less(s, i + 1);
        assert(s.take(i + 1).drop_last() =~= s.take(i));
        assert(s.take(i + 1).last() == s[i]);
    } else {
        assert(s.take(i) =~= s);
    }
}

proof fn lemma_digits_from(s: Seq<char>, start: int, i: nat, value: nat, max: nat)
    requires
        0 <= start <= i <= s.len(),
        all_digits(s.subrange(start, i as int)),
        value == decimal(s.subrange(start, i as int)),
        value <= max,
    ensures
        match digits_from(s, i, value, 10, max) {
            Ok(n) => all_digits(s.skip(start)) && decimal(s.skip(start)) == n && n <= max,
            Err(_) => !all_digits(s.skip(start)) || decimal(s.skip(start)) > max,
        },
    decreases s.len() - i,
{
    let all = s.skip(start);
    if i >= s.len() {
        assert(s.subrange(start, i as int) =~= all);
    } else {
        let c = s[i as int];
        assert(all[i - start] == c);
        if '0' <= c <= '9' {
            let next = s.subrange(start, i as int + 1);
            assert(next.drop_last() =~= s.subrange(start, i as int));
            assert(next.last() == c);
            assert(decimal(next) == value * 10 + digit_value(c)->0);
            assert(next =~= all.take(i + 1 - start));
            if value * 10 + digit_value(c)->0 > max {
                if all_digits(all) {
                    lemma_prefix_is_less(all, i + 1 - start);
                }
            } else {
                assert forall|k: int| 0 <= k < next.len() implies '0' <= #[trigger] next[k]
                    <= '9' by {
                    if k < i - start {
                        assert(next[k] == s.subrange(start, i as int)[k]);
                    }
                }
                lemma_digits_from(s, start, i + 1, decimal(next), max);
            }
        } else {
            assert(!all_digits(all));
        }
    }
}

/// A decimal number is read just where the text shows one that is not too large, and as the
/// number that it shows.
pub proof fn law_decimal_numbers_are_read(s: Seq<char>, max: nat)
    ensures
        match number_of(s, 10, max) {
            Ok(n) => shows(s, n as int) && n <= max,
            Err(_) => forall|n: int| #[trigger] shows(s, n) ==> n > max,
        },
        match positive_of(s, 10, max) {
            Ok(n) => shows(s, n as int) && 0 < n <= max,
            Err(_) => forall|n: int| #[trigger] shows(s, n) ==> n > max || n == 0,
        },
{
    if s.len() > 0 {
        assert(s.skip(0) =~= s);
        if s[0] == '+' {
            assert(!all_digits(s));
            if s.len() > 1 {
                assert(s.subrange(1, 1).len() == 0);
                lemma_digits_from(s, 1, 1, 0, max);
            }
        } else {
            assert(s.subrange(0, 0).len() == 0);
            lemma_digits_from(s, 0, 0, 0, max);
        }
    }
}

proof fn lemma_number_param(
    p: Map<Seq<char>, Seq<char>>,
    name: Seq<char>,
    max: nat,
    positive: bool,
)
    ensures
        match number_param(p, name, max, positive, false) {
            Ok(Some(n)) => holds(p, name, n as int) && n <= max && (positive ==> n > 0) && forall|
                m: int,
            | #[trigger] holds(p, name, m) ==> m == n,
            Ok(None) => !p.dom().contains(name),
            Err(e) => p.dom().contains(name) && !fine(
                p,
                name,
                if positive {
                    1
                } else {
                    0
                },
                max as int,
            ),
        },
        number_param(p, name, max, positive, false) is Ok ==> fine(
            p,
            name,
            if positive {
                1
            } else {
                0
            },
            max as int,
        ),
{
    if p.dom().contains(name) {
        law_decimal_numbers_are_read(p[name], max);
        let r = number_param(p, name, max, positive, false);
        if let Ok(Some(n)) = r {
            assert(shows(p[name], n as int));
            assert forall|m: int| #[trigger] holds(p, name, m) implies m == n by {
                lemma_shows_one(p[name], n as int, m);
            }
        }
    }
}

pub(crate) proof fn lemma_shows_one(s: Seq<char>, n: int, m: int)
    requires
        shows(s, n),
        shows(s, m),
    ensures
        n == m,
{
    if s[0] == '+' {
        assert(!all_digits(s));
    }
}

proof fn lemma_cli_numbers(p: Map<Seq<char>, Seq<char>>)
    ensures
        forall|cli: CliView|
            (#[trigger] asked_cli(cli, p)) is Ok <==> {
                &&& fine(p, "inject"@, 0, u64::MAX as int)
                &&& fine(p, "numops"@, 0, u64::MAX as int)
                &&& fine(p, "n"@, 0, u64::MAX as int)
                &&& fine(p, "opnum"@, 1, u64::MAX as int)
                &&& fine(p, "seed"@, 0, u64::MAX as int)
                &&& fine(p, "threads"@, 1, usize::MAX as int)
                &&& fine(p, "j"@, 1, usize::MAX as int)
            },
{
    lemma_number_param(p, "inject"@, u64::MAX as nat, false);
    lemma_number_param(p, "numops"@, u64::MAX as nat, false);
    lemma_number_param(p, "n"@, u64::MAX as nat, false);
    lemma_number_param(p, "opnum"@, u64::MAX as nat, true);
    lemma_number_param(p, "seed"@, u64::MAX as nat, false);
    lemma_number_param(p, "threads"@, usize::MAX as nat, true);
    lemma_number_param(p, "j"@, usize::MAX as nat, true);
}

/// The options of a request are accepted just where each number among the parameters is one
/// that its option can hold; the first operation and the number of threads are not zero.
pub proof fn law_accepted_options(cli: CliView, p: Map<Seq<char>, Seq<char>>)
    ensures
        asked_cli(cli, p) is Ok <==> {
            &&& fine(p, "inject"@, 0, u64::MAX as int)
            &&& fine(p, "numops"@, 0, u64::MAX as int)
            &&& fine(p, "n"@, 0, u64::MAX as int)
            &&& fine(p, "opnum"@, 1, u64::MAX as int)
            &&& fine(p, "seed"@, 0, u64::MAX as int)
            &&& fine(p, "threads"@, 1, usize::MAX as int)
            &&& fine(p, "j"@, 1, usize::MAX as int)
        },
{
    lemma_cli_numbers(p);
}

/// A run has the threads that its request asks for: `threads`, whatever `j` is; with `j` alone,
/// as many as that; with neither, as many as the server's own.
pub proof fn law_asked_threads(cli: CliView, p: Map<Seq<char>, Seq<char>>, n: int)
    requires
        asked_cli(cli, p) is Ok,
    ensures
        holds(p, "threads"@, n) ==> asked_cli(cli, p)->Ok_0.threads == Some(n as usize) && 0 < n
            <= usize::MAX,
        !p.dom().contains("threads"@) && holds(p, "j"@, n) ==> asked_cli(cli, p)->Ok_0.threads
            == Some(n as usize) && 0 < n <= usize::MAX,
        !p.dom().contains("threads"@) && !p.dom().contains("j"@) ==> asked_cli(
            cli,
            p,
        )->Ok_0.threads == cli.threads,
{
    lemma_number_param(p, "threads"@, usize::MAX as nat, true);
    lemma_number_param(p, "j"@, usize::MAX as nat, true);
}

/// A run has as many operations as its request asks for: `numops`, whatever `n` is; with `n`
/// alone, as many as that; with neither, a thousand, whatever the server's own are.
pub proof fn law_asked_operations(cli: CliView, p: Map<Seq<char>, Seq<char>>, n: int)
    requires
        asked_cli(cli, p) is Ok,
    ensures
        holds(p, "numops"@, n) ==> asked_cli(cli, p)->Ok_0.numops == Some(n as u64) && 0 <= n
            <= u64::MAX,
        !p.dom().contains("numops"@) && holds(p, "n"@, n) ==> asked_cli(cli, p)->Ok_0.numops
            == Some(n as u64) && 0 <= n <= u64::MAX,
        !p.dom().contains("numops"@) && !p.dom().contains("n"@) ==> asked_cli(
            cli,
            p,
        )->Ok_0.numops == Some(1000u64),
{
    lemma_number_param(p, "numops"@, u64::MAX as nat, false);
    lemma_number_param(p, "n"@, u64::MAX as nat, false);
}

/// A run has the seed and the first operation that its request asks for, or else the server's
/// own; an error is injected only where the request asks for one.
pub proof fn law_asked_numbers(cli: CliView, p: Map<Seq<char>, Seq<char>>, n: int)
    requires
        asked_cli(cli, p) is Ok,
    ensures
        holds(p, "seed"@, n) ==> asked_cli(cli, p)->Ok_0.seed == Some(n as u64) && 0 <= n
            <= u64::MAX,
        !p.dom().contains("seed"@) ==> asked_cli(cli, p)->Ok_0.seed == cli.seed,
        holds(p, "opnum"@, n) ==> asked_cli(cli, p)->Ok_0.opnum == n,
        !p.dom().contains("opnum"@) ==> asked_cli(cli, p)->Ok_0.opnum == cli.opnum,
        holds(p, "inject"@, n) ==> asked_cli(cli, p)->Ok_0.inject == Some(n as u64) && 0 <= n
            <= u64::MAX,
        !p.dom().contains("inject"@) ==> asked_cli(cli, p)->Ok_0.inject is None,
{
    lemma_number_param(p, "seed"@, u64::MAX as nat, false);
    lemma_number_param(p, "opnum"@, u64::MAX as nat, true);
    lemma_number_param(p, "inject"@, u64::MAX as nat, false);
}

/// Where a run works: on `path`, or else on `file`, or else on `fsxfile`; an absolute one as it
/// is, any other in the directory `cwd`, or else in the one of the process.
pub proof fn law_asked_file(cli: CliView, p: Map<Seq<char>, Seq<char>>)
    requires
        asked_cli(cli, p) is Ok,
    ensures
        ({
            let file = asked_cli(cli, p)->Ok_0.fname;
            let name = if p.dom().contains("path"@) {
                p["path"@]
            } else if p.dom().contains("file"@) {
                p["file"@]
            } else {
                "fsxfile"@
            };
            let dir = if p.dom().contains("cwd"@) {
                p["cwd"@]
            } else {
                "."@
            };
            &&& file is Some
            &&& name.len() > 0 && name[0] == '/' ==> file == Some(name)
            &&& !(name.len() > 0 && name[0] == '/') && dir.len() > 0 && dir.last() != '/' ==> file
                == Some(dir + seq!['/'] + name)
            &&& !(name.len() > 0 && name[0] == '/') && dir.len() > 0 && dir.last() == '/' ==> file
                == Some(dir + name)
            &&& dir.len() == 0 ==> file == Some(name)
        }),
        p.dom().contains("artifacts_dir"@) ==> asked_cli(cli, p)->Ok_0.artifacts_dir == Some(
            p["artifacts_dir"@],
        ),
        !p.dom().contains("artifacts_dir"@) ==> asked_cli(cli, p)->Ok_0.artifacts_dir
            == cli.artifacts_dir,
{
    reveal_strlit("/");
    assert("/"@ =~= seq!['/']);
}

/// What a request cannot ask for stays as the server has it, and the run is not a server itself.
pub proof fn law_other_options_are_the_servers(cli: CliView, p: Map<Seq<char>, Seq<char>>)
    requires
        asked_cli(cli, p) is Ok,
    ensures
        asked_cli(cli, p)->Ok_0 == (CliView {
            fname: asked_cli(cli, p)->Ok_0.fname,
            config: None,
            server: None,
            inject: asked_cli(cli, p)->Ok_0.inject,
            numops: asked_cli(cli, p)->Ok_0.numops,
            opnum: asked_cli(cli, p)->Ok_0.opnum,
            seed: asked_cli(cli, p)->Ok_0.seed,
            threads: asked_cli(cli, p)->Ok_0.threads,
            artifacts_dir: asked_cli(cli, p)->Ok_0.artifacts_dir,
            ..cli
        }),
{
}

/// Whether the parameter is missing or a yes or a no.
pub open spec fn fine_flag(p: Map<Seq<char>, Seq<char>>, name: Seq<char>) -> bool {
    p.dom().contains(name) ==> is_yes(p[name]) || is_no(p[name])
}

pub open spec fn is_yes(v: Seq<char>) -> bool {
    v == seq!['1'] || v == seq!['t', 'r', 'u', 'e'] || v == seq!['y', 'e', 's'] || v == seq![
        'o',
        'n',
    ]
}

pub open spec fn is_no(v: Seq<char>) -> bool {
    v == seq!['0'] || v == seq!['f', 'a', 'l', 's', 'e'] || v == seq!['n', 'o'] || v == seq![
        'o',
        'f',
        'f',
    ]
}

/// A flag is on for a yes, off for a no, open where it is missing, and refused for anything
/// else.
pub proof fn law_flags(p: Map<Seq<char>, Seq<char>>, name: Seq<char>)
    ensures
        flag_param(p, name) == Ok::<Option<bool>, Seq<char>>(Some(true)) <==> p.dom().contains(name)
            && is_yes(p[name]),
        flag_param(p, name) == Ok::<Option<bool>, Seq<char>>(Some(false)) <==> p.dom().contains(
            name,
        ) && is_no(p[name]),
        flag_param(p, name) == Ok::<Option<bool>, Seq<char>>(None) <==> !p.dom().contains(name),
        flag_param(p, name) is Ok <==> fine_flag(p, name),
{
    reveal_strlit("1");
    reveal_strlit("true");
    reveal_strlit("yes");
    reveal_strlit("on");
    reveal_strlit("0");
    reveal_strlit("false");
    reveal_strlit("no");
    reveal_strlit("off");
    assert("1"@ =~= seq!['1']);
    assert("true"@ =~= seq!['t', 'r', 'u', 'e']);
    assert("yes"@ =~= seq!['y', 'e', 's']);
    assert("on"@ =~= seq!['o', 'n']);
    assert("0"@ =~= seq!['0']);
    assert("false"@ =~= seq!['f', 'a', 'l', 's', 'e']);
    assert("no"@ =~= seq!['n', 'o']);
    assert("off"@ =~= seq!['o', 'f', 'f']);
    if p.dom().contains(name) {
        let v = p[name];
        if is_yes(v) && is_no(v) {
            assert(v[0] == '0' || v[0] == 'f' || v[0] == 'n' || (v[0] == 'o' && v.len() == 3));
        }
    }
}

/// A configuration is accepted just where each of its parameters is one that its setting can
/// hold, and then each setting is the one that the request gives, or else the server's own.
pub proof fn law_asked_configuration(c: Config, p: Map<Seq<char>, Seq<char>>, n: int)
    ensures
        asked_config(c, p) is Ok <==> {
            &&& fine(p, "flen"@, 0, u32::MAX as int)
            &&& fine_flag(p, "nosizechecks"@)
            &&& fine(p, "opsize_min"@, 0, usize::MAX as int)
            &&& fine(p, "opsize_max"@, 0, usize::MAX as int)
            &&& fine(p, "opsize_align"@, 1, usize::MAX as int)
        },
        asked_config(c, p) matches Ok(r) ==> {
            &&& holds(p, "flen"@, n) ==> r.flen == Some(n as u32) && 0 <= n <= u32::MAX
            &&& !p.dom().contains("flen"@) ==> r.flen == c.flen
            &&& p.dom().contains("nosizechecks"@) ==> r.nosizechecks == is_yes(p["nosizechecks"@])
            &&& !p.dom().contains("nosizechecks"@) ==> r.nosizechecks == c.nosizechecks
            &&& holds(p, "opsize_min"@, n) ==> r.opsize.min == n
            &&& !p.dom().contains("opsize_min"@) ==> r.opsize.min == c.opsize.min
            &&& holds(p, "opsize_max"@, n) ==> r.opsize.max == n
            &&& !p.dom().contains("opsize_max"@) ==> r.opsize.max == c.opsize.max
            &&& holds(p, "opsize_align"@, n) ==> r.opsize.align == Some(n as usize) && 0 < n
                <= usize::MAX
            &&& !p.dom().contains("opsize_align"@) ==> r.opsize.align == c.opsize.align
        },
{
    lemma_number_param(p, "flen"@, u32::MAX as nat, false);
    lemma_number_param(p, "opsize_min"@, usize::MAX as nat, false);
    lemma_number_param(p, "opsize_max"@, usize::MAX as nat, false);
    lemma_number_param(p, "opsize_align"@, usize::MAX as nat, true);
    law_flags(p, "nosizechecks"@);
}

/// A run is accepted just where its options, its configuration, its weights and its time limit
/// are, and where the configuration makes sense; it has the time limit that is asked for.
pub proof fn law_accepted_runs(
    cli: CliView,
    c: Config,
    p: Map<Seq<char>, Seq<char>>,
    weights: Result<(), Seq<char>>,
    n: int,
)
    ensures
        asked_run(cli, c, p, weights) is Ok <==> {
            &&& asked_cli(cli, p) is Ok
            &&& asked_config(c, p) is Ok
            &&& weights is Ok
            &&& config_verdict(asked_config(c, p)->Ok_0) is Ok
            &&& fine(p, "timeout_ms"@, 0, u64::MAX as int)
        },
        asked_run(cli, c, p, weights) matches Ok((run, config, limit)) ==> {
            &&& asked_cli(cli, p) == Ok::<CliView, Seq<char>>(run)
            &&& asked_config(c, p) == Ok::<Config, Seq<char>>(config)
            &&& holds(p, "timeout_ms"@, n) ==> limit == Some(n as u64) && 0 <= n <= u64::MAX
            &&& !p.dom().contains("timeout_ms"@) ==> limit is None
        },
{
    lemma_number_param(p, "timeout_ms"@, u64::MAX as nat, false);
}

/// What a request says decides the run, and the order of its parameters and those of other
/// names do not: the same values under the names that count give the same options.
pub proof fn law_other_parameters_do_not_count(
    cli: CliView,
    p: Map<Seq<char>, Seq<char>>,
    name: Seq<char>,
    value: Seq<char>,
)
    requires
        name != "inject"@,
        name != "numops"@,
        name != "n"@,
        name != "opnum"@,
        name != "seed"@,
        name != "threads"@,
        name != "j"@,
        name != "cwd"@,
        name != "path"@,
        name != "file"@,
        name != "artifacts_dir"@,
    ensures
        asked_cli(cli, p.insert(name, value)) == asked_cli(cli, p),
{
    lemma_other_name(p, name, value, "inject"@);
    lemma_other_name(p, name, value, "numops"@);
    lemma_other_name(p, name, value, "n"@);
    lemma_other_name(p, name, value, "opnum"@);
    lemma_other_name(p, name, value, "seed"@);
    lemma_other_name(p, name, value, "threads"@);
    lemma_other_name(p, name, value, "j"@);
    lemma_other_name(p, name, value, "cwd"@);
    lemma_other_name(p, name, value, "path"@);
    lemma_other_name(p, name, value, "file"@);
    lemma_other_name(p, name, value, "artifacts_dir"@);
}

proof fn lemma_other_name(
    p: Map<Seq<char>, Seq<char>>,
    name: Seq<char>,
    value: Seq<char>,
    own: Seq<char>,
)
    requires
        name != own,
    ensures
        crate::params::value_of(p.insert(name, value), own) == crate::params::value_of(p, own),
        forall|max: nat, positive: bool|
            #[trigger] number_param(p.insert(name, value), own, max, positive, false)
                == number_param(p, own, max, positive, false),
{
}

/// Whether `part` stands in `s` at some place.
pub open spec fn has_part(s: Seq<char>, part: Seq<char>) -> bool {
    exists|k: int| 0 <= k <= s.len() - part.len() && #[trigger] s.skip(k).take(part.len() as int) == part
}

/// Whether `s` ends in `part`.
pub open spec fn ends_in(s: Seq<char>, part: Seq<char>) -> bool {
    s.len() >= part.len() && s.skip(s.len() - part.len()) == part
}

/// Whether `s` starts with `part`.
pub open spec fn starts_in(s: Seq<char>, part: Seq<char>) -> bool {
    s.len() >= part.len() && s.take(part.len() as int) == part
}

/// A response begins with its status, says of what kind its body is and how many bytes it has,
/// and ends with an empty line and the body itself.
pub proof fn law_responses_carry_their_body(status: Seq<char>, kind: Seq<char>, body: Seq<char>)
    ensures
        ({
            let text = response_text(status, kind, body);
            &&& starts_in(text, "HTTP/1.1 "@ + status + "\r\n"@)
            &&& has_part(text, "\r\nContent-Type: "@ + kind + "\r\n"@)
            &&& has_part(text, "\r\nContent-Length: "@ + dec(encode_utf8(body).len()) + "\r\n"@)
            &&& ends_in(text, "\r\n\r\n"@ + body)
        }),
{
    reveal_strlit("HTTP/1.1 ");
    reveal_strlit("\r\n");
    reveal_strlit("\r\nContent-Type: ");
    reveal_strlit("\r\nContent-Length: ");
    reveal_strlit("\r\nConnection: close\r\n\r\n");
    reveal_strlit("\r\n\r\n");
    let text = response_text(status, kind, body);
    let n = dec(encode_utf8(body).len());
    let first = "HTTP/1.1 "@ + status;
    let head = first + "\r\n"@;
    assert(text.take(head.len() as int) =~= head);
    let typed = "\r\nContent-Type: "@ + kind + "\r\n"@;
    assert(text.skip(first.len() as int).take(typed.len() as int) =~= typed);
    let counted = "\r\nContent-Length: "@ + n + "\r\n"@;
    let at = (first + "\r\nContent-Type: "@ + kind).len();
    assert(text.skip(at as int).take(counted.len() as int) =~= counted);
    let tail = "\r\n\r\n"@ + body;
    assert(text.skip(text.len() - tail.len()) =~= tail);
}

/// The status of a response tells how a run ended: well, refused, failed or not in time.
pub proof fn law_status_tells_the_end(
    outcome: EndpointOutcome,
    workers: usize,
    numops: u64,
    elapsed_ms: u64,
    target: Seq<char>,
)
    ensures
        ({
            let text = endpoint_text(outcome, workers, numops, elapsed_ms, target);
            match outcome {
                EndpointOutcome::Done(_) => starts_in(text, "HTTP/1.1 200 OK\r\n"@),
                EndpointOutcome::Refused(_) => starts_in(text, "HTTP/1.1 400 Bad Request\r\n"@),
                EndpointOutcome::Failed(_) | EndpointOutcome::Disconnected => starts_in(
                    text,
                    "HTTP/1.1 500 Internal Server Error\r\n"@,
                ),
                EndpointOutcome::TimedOut => starts_in(text, "HTTP/1.1 504 Gateway Timeout\r\n"@),
            }
        }),
{
    reveal_strlit("HTTP/1.1 ");
    reveal_strlit("\r\n");
    reveal_strlit("200 OK");
    reveal_strlit("400 Bad Request");
    reveal_strlit("500 Internal Server Error");
    reveal_strlit("504 Gateway Timeout");
    reveal_strlit("HTTP/1.1 200 OK\r\n");
    reveal_strlit("HTTP/1.1 400 Bad Request\r\n");
    reveal_strlit("HTTP/1.1 500 Internal Server Error\r\n");
    reveal_strlit("HTTP/1.1 504 Gateway Timeout\r\n");
    assert("HTTP/1.1 "@ + "200 OK"@ + "\r\n"@ =~= "HTTP/1.1 200 OK\r\n"@);
    assert("HTTP/1.1 "@ + "400 Bad Request"@ + "\r\n"@ =~= "HTTP/1.1 400 Bad Request\r\n"@);
    assert("HTTP/1.1 "@ + "500 Internal Server Error"@ + "\r\n"@
        =~= "HTTP/1.1 500 Internal Server Error\r\n"@);
    assert("HTTP/1.1 "@ + "504 Gateway Timeout"@ + "\r\n"@ =~= "HTTP/1.1 504 Gateway Timeout\r\n"@);
    assert forall|status: Seq<char>, body: Seq<char>| starts_in(
        #[trigger] json_text(status, body),
        "HTTP/1.1 "@ + status + "\r\n"@,
    ) by {
        law_responses_carry_their_body(status, "application/json"@, body);
    }
}

/// Whether `word` stands in `s` from `k` on.
pub open spec fn stands_at(s: Seq<char>, word: Seq<char>, k: int) -> bool {
    0 <= k && k + word.len() <= s.len() && s.subrange(k, k + word.len()) == word
}

proof fn lemma_first_place(s: Seq<char>, word: Seq<char>, p: nat, i: nat)
    requires
        i <= p,
        p + word.len() <= s.len(),
        stands_at(s, word, p as int),
        forall|k: int| i <= k < p ==> !#[trigger] stands_at(s, word, k),
    ensures
        place_of(s, word, i) == Some(p),
    decreases p - i,
{
    if i < p {
        assert(!stands_at(s, word, i as int));
        lemma_first_place(s, word, p, i + 1);
    }
}

proof fn lemma_no_place(s: Seq<char>, word: Seq<char>, i: nat)
    requires
        forall|k: int| i <= k ==> !#[trigger] stands_at(s, word, k),
    ensures
        place_of(s, word, i) is None,
    decreases s.len() + 1 - i,
{
    if i + word.len() <= s.len() {
        assert(!stands_at(s, word, i as int));
        lemma_no_place(s, word, i + 1);
    }
}

/// Whether `c` stands in `s`.
pub open spec fn has_char(s: Seq<char>, c: char) -> bool {
    exists|i: int| 0 <= i < s.len() && #[trigger] s[i] == c
}

pub(crate) proof fn lemma_cut_at_char(before: Seq<char>, c: char, behind: Seq<char>)
    requires
        !has_char(before, c),
    ensures
        cut_at(before + seq![c] + behind, seq![c]) == Some((before, behind)),
        cut_at(before, seq![c]) is None,
{
    let s = before + seq![c] + behind;
    let p = before.len();
    assert(s.subrange(p as int, p as int + 1) =~= seq![c]);
    assert forall|k: int| 0 <= k < p implies !#[trigger] stands_at(s, seq![c], k) by {
        assert(s.subrange(k, k + 1)[0] == before[k]);
        assert(seq![c][0] == c);
    }
    lemma_first_place(s, seq![c], p, 0);
    assert(s.take(p as int) =~= before);
    assert(s.skip(p as int + 1) =~= behind);
    assert forall|k: int| 0 <= k implies !#[trigger] stands_at(before, seq![c], k) by {
        if k < before.len() {
            assert(before.subrange(k, k + 1)[0] == before[k]);
            assert(seq![c][0] == c);
        }
    }
    lemma_no_place(before, seq![c], 0);
}

/// A `GET` of `/run` asks for a run with the parameters behind the question mark, and with none
/// where there is no question mark. Where they cannot be read it is refused.
pub proof fn law_get_run_asks_for_a_run(request: Seq<char>, query: Seq<char>)
    requires
        lines_of(request).len() > 0,
        words_of(lines_of(request)[0]).len() >= 2,
        words_of(lines_of(request)[0])[0] == "GET"@,
    ensures
        words_of(lines_of(request)[0])[1] == "/run?"@ + query ==> routed(request) == run_route(
            query,
        ),
        words_of(lines_of(request)[0])[1] == "/run"@ ==> routed(request) == run_route(
            Seq::empty(),
        ),
        query_params(query) matches Ok(p) ==> run_route(query) == RouteView::Run(p),
        query_params(query) matches Err(e) ==> run_route(query) == RouteView::Respond(
            encode_utf8(json_text("400 Bad Request"@, error_body(e))),
        ),
{
    reveal_strlit("/run?");
    reveal_strlit("/run");
    reveal_strlit("?");
    reveal_strlit("GET");
    reveal_strlit("POST");
    reveal_strlit("/");
    reveal_strlit("/health");
    reveal_strlit("");
    assert("?"@ =~= seq!['?']);
    assert(""@ =~= Seq::<char>::empty());
    assert("/run?"@ + query =~= "/run"@ + seq!['?'] + query);
    assert("/run"@ != "/"@) by {
        assert("/run"@.len() != "/"@.len());
    }
    assert("/run"@ != "/health"@) by {
        assert("/run"@.len() != "/health"@.len());
    }
    lemma_cut_at_char("/run"@, '?', query);
}

/// A `POST` of `/run` asks for a run with the parameters in its body, which is what stands
/// behind the first empty line.
pub proof fn law_post_run_asks_for_a_run(request: Seq<char>, head: Seq<char>, body: Seq<char>)
    requires
        lines_of(request).len() > 0,
        words_of(lines_of(request)[0]).len() >= 2,
        words_of(lines_of(request)[0])[0] == "POST"@,
        words_of(lines_of(request)[0])[1] == "/run"@,
        request == head + "\r\n\r\n"@ + body,
        forall|k: int| 0 <= k < head.len() ==> !#[trigger] stands_at(request, "\r\n\r\n"@, k),
        forall|k: int| 0 <= k ==> !#[trigger] stands_at(body, "\r\n\r\n"@, k),
    ensures
        routed(request) == run_route(body),
{
    reveal_strlit("/run");
    reveal_strlit("?");
    reveal_strlit("GET");
    reveal_strlit("POST");
    reveal_strlit("/");
    reveal_strlit("/health");
    reveal_strlit("\r\n\r\n");
    assert("?"@ =~= seq!['?']);
    assert("GET"@ != "POST"@) by {
        assert("GET"@.len() != "POST"@.len());
    }
    lemma_cut_at_char("/run"@, '?', Seq::empty());
    let word = "\r\n\r\n"@;
    let p = head.len();
    assert(request.subrange(p as int, p as int + 4) =~= word);
    lemma_first_place(request, word, p, 0);
    assert(request.skip(p as int + 4) =~= body);
    lemma_no_place(body, word, 0);
    assert(second_piece(request, word) == Some(body));
}

/// The health page says that all is well, and a path that the server does not have is not
/// found; neither asks for a run.
pub proof fn law_other_pages(request: Seq<char>)
    requires
        lines_of(request).len() > 0,
        words_of(lines_of(request)[0]).len() >= 2,
        !has_char(words_of(lines_of(request)[0])[1], '?'),
    ensures
        ({
            let method = words_of(lines_of(request)[0])[0];
            let path = words_of(lines_of(request)[0])[1];
            &&& method == "GET"@ && path == "/health"@ ==> routed(request) == RouteView::Respond(
                encode_utf8(json_text("200 OK"@, "{\"ok\":true}\n"@)),
            )
            &&& routed(request) is Run ==> path == "/run"@ && (method == "GET"@ || method
                == "POST"@)
            &&& routed(request) !is Ignore
            &&& path != "/"@ && path != "/health"@ && path != "/run"@ ==> routed(request)
                == RouteView::Respond(
                encode_utf8(
                    json_text("404 Not Found"@, "{\"ok\":false,\"error\":\"not found\"}\n"@),
                ),
            )
            &&& method != "GET"@ && method != "POST"@ ==> routed(request) == RouteView::Respond(
                encode_utf8(
                    json_text("404 Not Found"@, "{\"ok\":false,\"error\":\"not found\"}\n"@),
                ),
            )
        }),
{
    reveal_strlit("?");
    reveal_strlit("/");
    reveal_strlit("/health");
    assert("?"@ =~= seq!['?']);
    assert("/health"@ != "/"@) by {
        assert("/health"@.len() != "/"@.len());
    }
    lemma_cut_at_char(words_of(lines_of(request)[0])[1], '?', Seq::empty());
}

/// A query is read just where each of its parts that is not empty can be decoded, name and
/// value.
pub proof fn law_readable_queries(parts: Seq<Seq<char>>, i: nat, p: Map<Seq<char>, Seq<char>>)
    requires
        i <= parts.len(),
    ensures
        params_from(parts, i, p) is Ok <==> forall|k: int|
            i <= k < parts.len() && (#[trigger] parts[k]).len() > 0 ==> component(
                name_and_value(parts[k]).0,
            ) is Ok && component(name_and_value(parts[k]).1) is Ok,
    decreases parts.len() - i,
{
    if i < parts.len() {
        let part = parts[i as int];
        if part.len() == 0 {
            law_readable_queries(parts, i + 1, p);
        } else {
            let (name, value) = name_and_value(part);
            if component(name) is Ok && component(value) is Ok {
                law_readable_queries(
                    parts,
                    i + 1,
                    p.insert(component(name)->Ok_0, component(value)->Ok_0),
                );
            } else {
                assert(parts[i as int].len() > 0);
            }
        }
    }
}

/// Whether the parts of a query are names and values, encoded, each with `=` between.
pub open spec fn are_pairs(
    parts: Seq<Seq<char>>,
    names: Seq<Seq<char>>,
    values: Seq<Seq<char>>,
) -> bool {
    &&& parts.len() == names.len()
    &&& parts.len() == values.len()
    &&& forall|k: int|
        0 <= k < parts.len() ==> is_pair(#[trigger] parts[k], names[k], values[k])
}

/// Whether the part of a query is a name and a value, encoded, with `=` between.
pub open spec fn is_pair(part: Seq<char>, name: Seq<char>, value: Seq<char>) -> bool {
    exists|a: Seq<char>, b: Seq<char>|
        {
            &&& part == #[trigger] (a + seq!['='] + b)
            &&& !has_char(a, '=')
            &&& !has_char(a, '&')
            &&& !has_char(b, '&')
            &&& component(a) == Ok::<Seq<char>, Seq<char>>(name)
            &&& component(b) == Ok::<Seq<char>, Seq<char>>(value)
        }
}

proof fn lemma_pair(part: Seq<char>, name: Seq<char>, value: Seq<char>)
    requires
        is_pair(part, name, value),
    ensures
        part.len() > 0,
        !has_char(part, '&'),
        component(name_and_value(part).0) == Ok::<Seq<char>, Seq<char>>(name),
        component(name_and_value(part).1) == Ok::<Seq<char>, Seq<char>>(value),
{
    reveal_strlit("=");
    assert("="@ =~= seq!['=']);
    let (a, b) = choose|a: Seq<char>, b: Seq<char>|
        {
            &&& part == #[trigger] (a + seq!['='] + b)
            &&& !has_char(a, '=')
            &&& !has_char(a, '&')
            &&& !has_char(b, '&')
            &&& component(a) == Ok::<Seq<char>, Seq<char>>(name)
            &&& component(b) == Ok::<Seq<char>, Seq<char>>(value)
        };
    lemma_cut_at_char(a, '=', b);
    assert forall|i: int| 0 <= i < part.len() implies part[i] != '&' by {
        if i < a.len() {
            assert(part[i] == a[i]);
        } else if i > a.len() {
            assert(part[i] == b[i - a.len() - 1]);
        }
    }
}

proof fn lemma_one_more_pair(
    parts: Seq<Seq<char>>,
    names: Seq<Seq<char>>,
    values: Seq<Seq<char>>,
    i: nat,
    p: Map<Seq<char>, Seq<char>>,
)
    requires
        are_pairs(parts, names, values),
        i < parts.len(),
    ensures
        params_from(parts, i, p) == params_from(
            parts,
            i + 1,
            p.insert(names[i as int], values[i as int]),
        ),
{
    lemma_pair(parts[i as int], names[i as int], values[i as int]);
}

proof fn lemma_name_not_given(
    parts: Seq<Seq<char>>,
    names: Seq<Seq<char>>,
    values: Seq<Seq<char>>,
    i: nat,
    p: Map<Seq<char>, Seq<char>>,
    name: Seq<char>,
)
    requires
        are_pairs(parts, names, values),
        i <= parts.len(),
        forall|k: int| i <= k < parts.len() ==> #[trigger] names[k] != name,
    ensures
        params_from(parts, i, p) matches Ok(m) && m.dom().contains(name) == p.dom().contains(name)
            && m[name] == p[name],
    decreases parts.len() - i,
{
    if i < parts.len() {
        assert(names[i as int] != name);
        lemma_one_more_pair(parts, names, values, i, p);
        lemma_name_not_given(
            parts,
            names,
            values,
            i + 1,
            p.insert(names[i as int], values[i as int]),
            name,
        );
    }
}

proof fn lemma_name_given_last(
    parts: Seq<Seq<char>>,
    names: Seq<Seq<char>>,
    values: Seq<Seq<char>>,
    i: nat,
    p: Map<Seq<char>, Seq<char>>,
    k: int,
)
    requires
        are_pairs(parts, names, values),
        i <= k < parts.len(),
        forall|j: int| k < j < parts.len() ==> #[trigger] names[j] != names[k],
    ensures
        params_from(parts, i, p) matches Ok(m) && m.dom().contains(names[k]) && m[names[k]]
            == values[k],
    decreases k - i,
{
    let next = p.insert(names[i as int], values[i as int]);
    lemma_one_more_pair(parts, names, values, i, p);
    if i < k {
        lemma_name_given_last(parts, names, values, i + 1, next, k);
    } else {
        lemma_name_not_given(parts, names, values, i + 1, next, names[k]);
    }
}

proof fn lemma_last_place(names: Seq<Seq<char>>, name: Seq<char>) -> (k: int)
    requires
        names.contains(name),
    ensures
        0 <= k < names.len(),
        names[k] == name,
        forall|j: int| k < j < names.len() ==> #[trigger] names[j] != name,
    decreases names.len(),
{
    if names.last() == name {
        names.len() - 1
    } else {
        let less = names.drop_last();
        let i = choose|i: int| 0 <= i < names.len() && names[i] == name;
        assert(less[i] == name);
        let k = lemma_last_place(less, name);
        assert forall|j: int| k < j < names.len() implies #[trigger] names[j] != name by {
            if j < less.len() {
                assert(less[j] == names[j]);
            }
        }
        k
    }
}

/// A query gives each of its names the value that stands behind it, the last one where a name
/// comes more than once, and no other names.
pub proof fn law_queries_give_their_values(
    parts: Seq<Seq<char>>,
    names: Seq<Seq<char>>,
    values: Seq<Seq<char>>,
    name: Seq<char>,
    k: int,
)
    requires
        are_pairs(parts, names, values),
        parts.len() > 0,
        0 <= k < parts.len(),
    ensures
        query_params(joined(parts, seq!['&'])) is Ok,
        ({
            let p = query_params(joined(parts, seq!['&']))->Ok_0;
            &&& p.dom().contains(name) <==> names.contains(name)
            &&& (forall|j: int| k < j < parts.len() ==> names[j] != names[k]) ==> p[names[k]]
                == values[k]
        }),
{
    assert forall|i: int| 0 <= i < parts.len() implies !has_char(#[trigger] parts[i], '&') by {
        lemma_pair(parts[i], names[i], values[i]);
    }
    crate::text_laws::law_joined_is_split_back(parts, '&');
    let none = Map::<Seq<char>, Seq<char>>::empty();
    assert(crate::text::pieces(joined(parts, seq!['&']), '&') == parts);
    if names.contains(name) {
        let last = lemma_last_place(names, name);
        lemma_name_given_last(parts, names, values, 0, none, last);
    } else {
        assert forall|i: int| 0 <= i < parts.len() implies #[trigger] names[i] != name by {
            assert(names.contains(names[i]));
        }
        lemma_name_not_given(parts, names, values, 0, none, name);
    }
    if forall|j: int| k < j < parts.len() ==> names[j] != names[k] {
        lemma_name_given_last(parts, names, values, 0, none, k);
    }
}

/// An empty query has no parameters.
pub proof fn law_empty_queries_give_nothing()
    ensures
        query_params(Seq::empty()) == Ok::<Map<Seq<char>, Seq<char>>, Seq<char>>(Map::empty()),
{
    reveal_with_fuel(params_from, 3);
    let none = Seq::<char>::empty();
    assert(crate::text::pieces(none, '&') =~= seq![none]);
}

/// The number of operations that are planned is the product, as long as it can be shown.
pub proof fn law_planned_operations(numops: u64, workers: u64)
    ensures
        numops * workers <= u64::MAX ==> capped_product(numops, workers) == numops * workers,
        numops * workers > u64::MAX ==> capped_product(numops, workers) == u64::MAX,
{
}

/// A run that ended well is told how many workers ran, how many operations each had and how
/// many there were in all; one that did not is told what went wrong.
pub proof fn law_responses_tell_about_the_run(
    outcome: EndpointOutcome,
    workers: usize,
    numops: u64,
    elapsed_ms: u64,
    target: Seq<char>,
)
    ensures
        ({
            let text = endpoint_text(outcome, workers, numops, elapsed_ms, target);
            match outcome {
                EndpointOutcome::Done(done) => has_part(
                    text,
                    "{\"ok\":true,\"workers\":"@ + dec(done as nat) + ",\"numops_per_worker\":"@
                        + dec(numops as nat) + ",\"total_ops_planned\":"@ + dec(
                        capped_product(numops, done as u64),
                    ) + ",\"elapsed_ms\":"@ + dec(elapsed_ms as nat),
                ) && ends_in(text, ",\"target\":\""@ + escaped(target) + "\"}\n"@),
                EndpointOutcome::Refused(e) => ends_in(
                    text,
                    "{\"ok\":false,\"error\":\""@ + escaped(e@) + "\"}\n"@,
                ),
                EndpointOutcome::Failed(e) => ends_in(
                    text,
                    ",\"target\":\""@ + escaped(target) + "\",\"error\":\""@ + escaped(e@)
                        + "\"}\n"@,
                ),
                _ => true,
            }
        }),
{
    let text = endpoint_text(outcome, workers, numops, elapsed_ms, target);
    match outcome {
        EndpointOutcome::Done(done) => {
            let part = "{\"ok\":true,\"workers\":"@ + dec(done as nat)
                + ",\"numops_per_worker\":"@ + dec(numops as nat) + ",\"total_ops_planned\":"@
                + dec(capped_product(numops, done as u64)) + ",\"elapsed_ms\":"@ + dec(
                elapsed_ms as nat,
            );
            let tail = ",\"target\":\""@ + escaped(target) + "\"}\n"@;
            let body = part + ",\"target\":\""@ + escaped(target) + "\"}\n"@;
            assert(body =~= part + tail);
            lemma_ends(text, "200 OK"@, body);
            let at = text.len() - body.len();
            assert(text.skip(at).take(part.len() as int) =~= part) by {
                assert(text.skip(at) =~= body);
            }
            assert(text.skip(text.len() - tail.len()) =~= tail) by {
                assert(text.skip(text.len() - tail.len()) =~= text.skip(at).skip(
                    part.len() as int,
                ));
                assert(text.skip(at) =~= body);
            }
        },
        EndpointOutcome::Refused(e) => {
            lemma_ends(text, "400 Bad Request"@, error_body(e@));
        },
        EndpointOutcome::Failed(e) => {
            let front = failed_front(workers, numops, elapsed_ms, target);
            let body = front + escaped(e@) + "\"}\n"@;
            let tail = ",\"target\":\""@ + escaped(target) + "\",\"error\":\""@ + escaped(e@)
                + "\"}\n"@;
            lemma_ends(text, "500 Internal Server Error"@, body);
            let at = text.len() - body.len();
            assert(body.skip(body.len() - tail.len()) =~= tail);
            assert(text.skip(text.len() - tail.len()) =~= text.skip(at).skip(
                body.len() - tail.len(),
            ));
        },
        _ => {},
    }
}

proof fn lemma_ends(text: Seq<char>, status: Seq<char>, body: Seq<char>)
    requires
        text == json_text(status, body),
    ensures
        ends_in(text, body),
{
    assert(text.skip(text.len() - body.len()) =~= body);
}

/// The directory of a file is its path without the name, unless nothing is left.
pub proof fn law_directories_of_files(file: Seq<char>)
    ensures
        match own_dir(file) {
            Some(dir) => dir.len() > 0 && dir == file.take(dir.len() as int) && path_parts(dir)
                == path_parts(file).drop_last(),
            None => path_parts(file).len() <= 1,
        },
{
    crate::text_laws::law_parents_lack_the_last_component(file);
    if let Some(dir) = crate::paths::parent_of(file) {
        if dir.len() == 0 {
            assert(crate::text::pieces(dir, '/') =~= seq![Seq::<char>::empty()]);
            reveal_strlit("");
            assert(Seq::<char>::empty() =~= ""@);
            reveal_with_fuel(crate::paths::named_parts, 3);
            assert(path_parts(dir) =~= Seq::empty());
        }
    } else if path_parts(file).len() > 0 {
        crate::text_laws::lemma_root_is_alone(file);
    }
}

/// A request without a line is passed over, and one whose first line is not at least a method
/// and a path is refused.
pub proof fn law_broken_requests_are_refused(request: Seq<char>)
    ensures
        routed(request) is Ignore <==> lines_of(request).len() == 0,
        lines_of(request).len() > 0 && words_of(lines_of(request)[0]).len() < 2 ==> (routed(
            request,
        ) matches RouteView::Respond(bytes) && exists|text: Seq<char>|
            bytes == #[trigger] encode_utf8(text) && starts_in(
                text,
                "HTTP/1.1 "@ + "400 Bad Request"@ + "\r\n"@,
            )),
{
    let body = "{\"ok\":false,\"error\":\"bad request line\"}\n"@;
    law_responses_carry_their_body("400 Bad Request"@, "application/json"@, body);
    let text = json_text("400 Bad Request"@, body);
    if lines_of(request).len() > 0 && words_of(lines_of(request)[0]).len() < 2 {
        assert(routed(request) == RouteView::Respond(encode_utf8(text)));
    }
}

/// A percent sign stands for a byte only with two more characters behind it that show one, and
/// is refused otherwise; a plus sign stands for a blank, and any other byte for itself.
pub proof fn law_encoded_bytes(bytes: Seq<u8>, i: nat, out: Seq<u8>)
    requires
        i < bytes.len(),
    ensures
        bytes[i as int] == 37 && i + 2 >= bytes.len() ==> decoded(bytes, i, out) is Err,
        bytes[i as int] == 37 && i + 2 < bytes.len() && hex_pair(
            bytes[i as int + 1],
            bytes[i as int + 2],
        ) is None ==> decoded(bytes, i, out) is Err,
        bytes[i as int] == 37 && i + 2 < bytes.len() ==> (hex_pair(
            bytes[i as int + 1],
            bytes[i as int + 2],
        ) matches Some(b) ==> decoded(bytes, i, out) == decoded(bytes, i + 3, out.push(b))),
        bytes[i as int] == 43 ==> decoded(bytes, i, out) == decoded(bytes, i + 1, out.push(32)),
        bytes[i as int] != 37 && bytes[i as int] != 43 ==> decoded(bytes, i, out) == decoded(
            bytes,
            i + 1,
            out.push(bytes[i as int]),
        ),
{
}

/// Two hexadecimal digits show a byte, the first the higher half of it; so does one behind a
/// plus sign. Anything else shows none.
pub proof fn law_hexadecimal_pairs(a: u8, b: u8)
    ensures
        hex_pair(a, b) is Some <==> (is_hex_digit(a) || a == 43) && is_hex_digit(b),
        is_hex_digit(a) && is_hex_digit(b) ==> (hex_pair(a, b) matches Some(n) && n / 16
            == half_of(a) && n % 16 == half_of(b)),
        a == 43 && is_hex_digit(b) ==> (hex_pair(a, b) matches Some(n) && n == half_of(b)),
{
}

pub open spec fn is_hex_digit(b: u8) -> bool {
    '0' as int <= b <= '9' as int || 'a' as int <= b <= 'f' as int || 'A' as int <= b <= 'F' as int
}

/// What a hexadecimal digit shows.
pub open spec fn half_of(b: u8) -> int {
    if b <= '9' as int {
        b - '0' as int
    } else if b <= 'F' as int {
        b - 'A' as int + 10
    } else {
        b - 'a' as int + 10
    }
}

} // verus!
