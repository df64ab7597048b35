//! The configuration of an edge function, as the API takes it.

use crate::json::{
    array_value, compact_text, json_array, json_chars, json_object, json_string, json_text,
    json_texts, law_json_string_is_read_back, law_plain_json_is_kept, lemma_json_chars_end,
    member_texts, object_value, string_value,
};
use crate::options::{EdgeScriptPosition, OnOff};
use crate::params::{bytes_precede, name_precedes, Pair};
use crate::reading::{is_decimal, json_unescaped};
use crate::text::{
    decimal, joined, law_decimal_is_read_back, lemma_decimal_injective, number, push_decimal,
};
use serde_json::Value;
use vstd::prelude::*;
use vstd::utf8::encode_utf8;

verus! {

/// An argument of an edge function, as a JSON object.
pub open spec fn argument_text(name: Seq<char>, value: Seq<char>) -> Seq<char> {
    json_object(seq![("argName"@, json_string(name)), ("argValue"@, json_string(value))])
}

/// The configuration of an edge function with its arguments, as a JSON array.
pub open spec fn functions_text(
    enable: OnOff,
    name: Seq<char>,
    pos: EdgeScriptPosition,
    pri: u16,
    rule: Seq<char>,
) -> Seq<char> {
    json_array(
        seq![
            json_object(
                seq![
                    (
                        "functionArgs"@,
                        json_array(
                            seq![
                                argument_text("enable"@, enable.api_value()),
                                argument_text("name"@, name),
                                argument_text("pos"@, pos.api_value()),
                                argument_text("pri"@, decimal(pri as nat)),
                                argument_text("rule"@, rule),
                            ],
                        ),
                    ),
                    ("functionName"@, json_string("edge_function"@)),
                ],
            ),
        ],
    )
}

/// Names that part at some byte are ordered by that byte.
proof fn lemma_precede_at(a: Seq<u8>, b: Seq<u8>, at: int)
    requires
        0 <= at < a.len(),
        at < b.len(),
        a[at] < b[at],
        forall|i: int| 0 <= i < at ==> a[i] == b[i],
    ensures
        bytes_precede(a, b),
    decreases at,
{
    if at > 0 {
        assert(a[0] == b[0]);
        assert forall|i: int| 0 <= i < at - 1 implies a.skip(1)[i] == b.skip(1)[i] by {
            assert(a[i + 1] == b[i + 1]);
        }
        lemma_precede_at(a.skip(1), b.skip(1), at - 1);
    }
}

/// The order of the names in the configuration of an edge function.
proof fn lemma_config_names()
    ensures
        name_precedes("argName"@, "argValue"@),
        name_precedes("functionArgs"@, "functionName"@),
{
    reveal_strlit("argName");
    reveal_strlit("argValue");
    reveal_strlit("functionArgs");
    reveal_strlit("functionName");
    vstd::utf8::is_ascii_chars_encode_utf8("argName"@);
    vstd::utf8::is_ascii_chars_encode_utf8("argValue"@);
    vstd::utf8::is_ascii_chars_encode_utf8("functionArgs"@);
    vstd::utf8::is_ascii_chars_encode_utf8("functionName"@);
    lemma_precede_at(encode_utf8("argName"@), encode_utf8("argValue"@), 3);
    lemma_precede_at(encode_utf8("functionArgs"@), encode_utf8("functionName"@), 8);
}

/// A JSON object of two members in ascending order of their names.
fn pair_value(first: &str, first_value: Value, second: &str, second_value: Value) -> (value: Value)
    requires
        name_precedes(first@, second@),
    ensures
        json_text(value) == json_object(
            seq![(first@, json_text(first_value)), (second@, json_text(second_value))],
        ),
{
    let mut members: Vec<(String, Value)> = Vec::new();
    members.push((first.to_string(), first_value));
    members.push((second.to_string(), second_value));
    assert(member_texts(members@) =~= seq![
        (first@, json_text(first_value)),
        (second@, json_text(second_value)),
    ]);
    object_value(members)
}

/// An argument of an edge function.
fn argument_value(name: &str, value: &str) -> (argument: Value)
    ensures
        json_text(argument) == argument_text(name@, value@),
{
    proof {
        lemma_config_names();
    }
    pair_value("argName", string_value(name), "argValue", string_value(value))
}

/// The configuration of an edge function, as the JSON text that the API takes.
pub fn edge_function_config(
    enable: &OnOff,
    name: &str,
    pos: &EdgeScriptPosition,
    pri: u16,
    rule: &str,
) -> (functions: String)
    ensures
        functions@ == functions_text(*enable, name@, *pos, pri, rule@),
{
    let mut priority = String::new();
    push_decimal(&mut priority, pri as u64);
    assert(priority@ =~= decimal(pri as nat));

    let mut arguments: Vec<Value> = Vec::new();
    arguments.push(argument_value("enable", enable.as_api_value()));
    arguments.push(argument_value("name", name));
    arguments.push(argument_value("pos", pos.as_api_value()));
    arguments.push(argument_value("pri", priority.as_str()));
    arguments.push(argument_value("rule", rule));
    assert(json_texts(arguments@) =~= seq![
        argument_text("enable"@, enable.api_value()),
        argument_text("name"@, name@),
        argument_text("pos"@, pos.api_value()),
        argument_text("pri"@, decimal(pri as nat)),
        argument_text("rule"@, rule@),
    ]);

    proof {
        lemma_config_names();
    }
    let function = pair_value(
        "functionArgs",
        array_value(arguments),
        "functionName",
        string_value("edge_function"),
    );
    let ghost function_text = json_text(function);
    let mut functions: Vec<Value> = Vec::new();
    functions.push(function);
    assert(json_texts(functions@) =~= seq![function_text]);
    compact_text(&array_value(functions))
}

/// An argument up to its value.
spec fn argument_head(name: Seq<char>) -> Seq<char> {
    seq!['{'] + json_string("argName"@) + seq![':'] + json_string(name) + seq![','] + json_string(
        "argValue"@,
    ) + seq![':', '"']
}

/// An argument identifies its value, whatever follows.
proof fn lemma_argument_text(
    name: Seq<char>,
    a: Seq<char>,
    b: Seq<char>,
    x: Seq<char>,
    y: Seq<char>,
)
    requires
        argument_text(name, a) + x == argument_text(name, b) + y,
    ensures
        a == b,
        x == y,
{
    lemma_argument_parts(name, a);
    lemma_argument_parts(name, b);
    let head = argument_head(name);
    let n = head.len() as int;
    let s = argument_text(name, a) + x;
    let t = argument_text(name, b) + y;
    assert(s.skip(n) =~= json_chars(a) + seq!['"'] + (seq!['}'] + x));
    assert(t.skip(n) =~= json_chars(b) + seq!['"'] + (seq!['}'] + y));
    lemma_json_chars_end(a, b, seq!['}'] + x, seq!['}'] + y);
    assert((seq!['}'] + x).skip(1) =~= x);
    assert((seq!['}'] + y).skip(1) =~= y);
}

/// The parts of an argument.
proof fn lemma_argument_parts(name: Seq<char>, value: Seq<char>)
    ensures
        argument_text(name, value) == argument_head(name) + json_chars(value) + seq!['"', '}'],
{
    let members = seq![("argName"@, json_string(name)), ("argValue"@, json_string(value))];
    let parts = members.map_values(|member: Pair| json_string(member.0) + seq![':'] + member.1);
    assert(parts.drop_last() =~= seq![parts[0]]);
    reveal_with_fuel(joined, 3);
    assert(joined(parts, seq![',']) == parts[0] + seq![','] + parts[1]);
    assert(argument_text(name, value) =~= argument_head(name) + json_chars(value) + seq![
        '"',
        '}',
    ]);
}

/// The configuration of an edge function in front of its arguments.
spec fn config_head() -> Seq<char> {
    seq!['[', '{'] + json_string("functionArgs"@) + seq![':', '[']
}

/// The configuration of an edge function behind its arguments.
spec fn config_tail() -> Seq<char> {
    seq![']', ','] + json_string("functionName"@) + seq![':'] + json_string("edge_function"@)
        + seq!['}', ']']
}

/// Five texts, joined, with a text behind them.
proof fn lemma_joined_five(
    a: Seq<char>,
    b: Seq<char>,
    c: Seq<char>,
    d: Seq<char>,
    e: Seq<char>,
    mark: Seq<char>,
    end: Seq<char>,
)
    ensures
        joined(seq![a, b, c, d, e], mark) + end == a + (mark + (b + (mark + (c + (mark + (d + (mark
            + (e + end)))))))),
{
    let all = seq![a, b, c, d, e];
    assert(all.drop_last() =~= seq![a, b, c, d]);
    assert(seq![a, b, c, d].drop_last() =~= seq![a, b, c]);
    assert(seq![a, b, c].drop_last() =~= seq![a, b]);
    assert(seq![a, b].drop_last() =~= seq![a]);
    assert(joined(seq![a], mark) == a);
    assert(joined(seq![a, b], mark) == a + mark + b);
    assert(joined(seq![a, b, c], mark) == a + mark + b + mark + c);
    assert(joined(seq![a, b, c, d], mark) == a + mark + b + mark + c + mark + d);
    assert(joined(all, mark) == a + mark + b + mark + c + mark + d + mark + e);
    assert(joined(all, mark) + end =~= a + (mark + (b + (mark + (c + (mark + (d + (mark + (e
        + end)))))))));
}

/// The parts of a configuration, its arguments taken together.
proof fn lemma_config_frame(arguments: Seq<Seq<char>>)
    ensures
        json_array(
            seq![
                json_object(
                    seq![
                        ("functionArgs"@, json_array(arguments)),
                        ("functionName"@, json_string("edge_function"@)),
                    ],
                ),
            ],
        ) == config_head() + (joined(arguments, seq![',']) + config_tail()),
{
    let members = seq![
        ("functionArgs"@, json_array(arguments)),
        ("functionName"@, json_string("edge_function"@)),
    ];
    let parts = members.map_values(|member: Pair| json_string(member.0) + seq![':'] + member.1);
    assert(parts.drop_last() =~= seq![parts[0]]);
    assert(joined(seq![parts[0]], seq![',']) == parts[0]);
    assert(joined(parts, seq![',']) == parts[0] + seq![','] + parts[1]);
    assert(joined(seq![json_object(members)], seq![',']) == json_object(members));
    assert(json_array(seq![json_object(members)]) =~= config_head() + (joined(arguments, seq![','])
        + config_tail()));
}

/// The parts of a configuration.
proof fn lemma_config_parts(
    enable: OnOff,
    name: Seq<char>,
    pos: EdgeScriptPosition,
    pri: u16,
    rule: Seq<char>,
)
    ensures
        functions_text(enable, name, pos, pri, rule) == config_head() + (argument_text(
            "enable"@,
            enable.api_value(),
        ) + (seq![','] + (argument_text("name"@, name) + (seq![','] + (argument_text(
            "pos"@,
            pos.api_value(),
        ) + (seq![','] + (argument_text("pri"@, decimal(pri as nat)) + (seq![','] + (argument_text(
            "rule"@,
            rule,
        ) + config_tail()))))))))),
{
    let a = argument_text("enable"@, enable.api_value());
    let b = argument_text("name"@, name);
    let c = argument_text("pos"@, pos.api_value());
    let d = argument_text("pri"@, decimal(pri as nat));
    let e = argument_text("rule"@, rule);
    lemma_config_frame(seq![a, b, c, d, e]);
    lemma_joined_five(a, b, c, d, e, seq![','], config_tail());
}

/// Text behind the same text is the same.
proof fn lemma_same_start(start: Seq<char>, x: Seq<char>, y: Seq<char>)
    requires
        start + x == start + y,
    ensures
        x == y,
{
    let n = start.len() as int;
    assert((start + x).skip(n) =~= x);
    assert((start + y).skip(n) =~= y);
}

/// The configuration that is sent identifies the edge function: every part of it
/// can be read back.
pub proof fn law_config_identifies_the_function(
    enable: OnOff,
    name: Seq<char>,
    pos: EdgeScriptPosition,
    pri: u16,
    rule: Seq<char>,
    other_enable: OnOff,
    other_name: Seq<char>,
    other_pos: EdgeScriptPosition,
    other_pri: u16,
    other_rule: Seq<char>,
)
    requires
        functions_text(enable, name, pos, pri, rule) == functions_text(
            other_enable,
            other_name,
            other_pos,
            other_pri,
            other_rule,
        ),
    ensures
        enable == other_enable,
        name == other_name,
        pos == other_pos,
        pri == other_pri,
        rule == other_rule,
{
    lemma_config_parts(enable, name, pos, pri, rule);
    lemma_config_parts(other_enable, other_name, other_pos, other_pri, other_rule);
    let comma = seq![','];

    let t5 = argument_text("rule"@, rule) + config_tail();
    let u5 = argument_text("rule"@, other_rule) + config_tail();
    let t4 = argument_text("pri"@, decimal(pri as nat)) + (comma + t5);
    let u4 = argument_text("pri"@, decimal(other_pri as nat)) + (comma + u5);
    let t3 = argument_text("pos"@, pos.api_value()) + (comma + t4);
    let u3 = argument_text("pos"@, other_pos.api_value()) + (comma + u4);
    let t2 = argument_text("name"@, name) + (comma + t3);
    let u2 = argument_text("name"@, other_name) + (comma + u3);
    let t1 = argument_text("enable"@, enable.api_value()) + (comma + t2);
    let u1 = argument_text("enable"@, other_enable.api_value()) + (comma + u2);

    lemma_same_start(config_head(), t1, u1);
    lemma_argument_text(
        "enable"@,
        enable.api_value(),
        other_enable.api_value(),
        comma + t2,
        comma + u2,
    );
    lemma_same_start(comma, t2, u2);
    lemma_argument_text("name"@, name, other_name, comma + t3, comma + u3);
    lemma_same_start(comma, t3, u3);
    lemma_argument_text("pos"@, pos.api_value(), other_pos.api_value(), comma + t4, comma + u4);
    lemma_same_start(comma, t4, u4);
    lemma_argument_text(
        "pri"@,
        decimal(pri as nat),
        decimal(other_pri as nat),
        comma + t5,
        comma + u5,
    );
    lemma_same_start(comma, t5, u5);
    lemma_argument_text("rule"@, rule, other_rule, config_tail(), config_tail());

    lemma_decimal_injective(pri as nat, other_pri as nat);
    reveal_strlit("on");
    reveal_strlit("off");
    reveal_strlit("head");
    reveal_strlit("foot");
    assert("on"@.len() == 2 && "off"@.len() == 3);
    assert("head"@[0] == 'h' && "foot"@[0] == 'f');
}

/// The texts around the arguments of a configuration.
proof fn lemma_config_literals()
    ensures
        config_head() == "[{\"functionArgs\":["@,
        config_tail() == "],\"functionName\":\"edge_function\"}]"@,
{
    reveal_strlit("[{\"functionArgs\":[");
    reveal_strlit("],\"functionName\":\"edge_function\"}]");
    reveal_strlit("functionArgs");
    reveal_strlit("functionName");
    reveal_strlit("edge_function");
    law_plain_json_is_kept("functionArgs"@);
    law_plain_json_is_kept("functionName"@);
    law_plain_json_is_kept("edge_function"@);
    assert(config_head() =~= "[{\"functionArgs\":["@);
    assert(config_tail() =~= "],\"functionName\":\"edge_function\"}]"@);
}

/// The text of an argument up to its value.
proof fn lemma_argument_literal(name: Seq<char>)
    requires
        json_chars(name) == name,
    ensures
        argument_head(name) == "{\"argName\":\""@ + name + "\",\"argValue\":\""@,
{
    reveal_strlit("{\"argName\":\"");
    reveal_strlit("\",\"argValue\":\"");
    reveal_strlit("argName");
    reveal_strlit("argValue");
    law_plain_json_is_kept("argName"@);
    law_plain_json_is_kept("argValue"@);
    assert(argument_head(name) =~= "{\"argName\":\""@ + name + "\",\"argValue\":\""@);
}

/// The texts of the five arguments up to their values.
proof fn lemma_argument_literals()
    ensures
        argument_head("enable"@) == "{\"argName\":\"enable\",\"argValue\":\""@,
        argument_head("name"@) == "{\"argName\":\"name\",\"argValue\":\""@,
        argument_head("pos"@) == "{\"argName\":\"pos\",\"argValue\":\""@,
        argument_head("pri"@) == "{\"argName\":\"pri\",\"argValue\":\""@,
        argument_head("rule"@) == "{\"argName\":\"rule\",\"argValue\":\""@,
{
    reveal_strlit("{\"argName\":\"");
    reveal_strlit("\",\"argValue\":\"");
    reveal_strlit("enable");
    reveal_strlit("name");
    reveal_strlit("pos");
    reveal_strlit("pri");
    reveal_strlit("rule");
    reveal_strlit("{\"argName\":\"enable\",\"argValue\":\"");
    reveal_strlit("{\"argName\":\"name\",\"argValue\":\"");
    reveal_strlit("{\"argName\":\"pos\",\"argValue\":\"");
    reveal_strlit("{\"argName\":\"pri\",\"argValue\":\"");
    reveal_strlit("{\"argName\":\"rule\",\"argValue\":\"");
    law_plain_json_is_kept("enable"@);
    law_plain_json_is_kept("name"@);
    law_plain_json_is_kept("pos"@);
    law_plain_json_is_kept("pri"@);
    law_plain_json_is_kept("rule"@);
    lemma_argument_literal("enable"@);
    lemma_argument_literal("name"@);
    lemma_argument_literal("pos"@);
    lemma_argument_literal("pri"@);
    lemma_argument_literal("rule"@);
    assert(argument_head("enable"@) =~= "{\"argName\":\"enable\",\"argValue\":\""@);
    assert(argument_head("name"@) =~= "{\"argName\":\"name\",\"argValue\":\""@);
    assert(argument_head("pos"@) =~= "{\"argName\":\"pos\",\"argValue\":\""@);
    assert(argument_head("pri"@) =~= "{\"argName\":\"pri\",\"argValue\":\""@);
    assert(argument_head("rule"@) =~= "{\"argName\":\"rule\",\"argValue\":\""@);
}

/// The text of a configuration, written out. The name and the rule stand in it as
/// JSON strings that are read as the whole name and the whole rule, the priority
/// as a decimal number that is read as the priority, and the two choices by
/// their names.
pub proof fn law_config_is_read_back(
    enable: OnOff,
    name: Seq<char>,
    pos: EdgeScriptPosition,
    pri: u16,
    rule: Seq<char>,
)
    ensures
        functions_text(enable, name, pos, pri, rule) == "[{\"functionArgs\":["@ + (
        "{\"argName\":\"enable\",\"argValue\":\""@ + (if enable is On {
            "on"@
        } else {
            "off"@
        }) + "\"}"@ + ","@) + ("{\"argName\":\"name\",\"argValue\":\""@ + json_chars(name) + "\"}"@
            + ","@) + ("{\"argName\":\"pos\",\"argValue\":\""@ + (if pos is Head {
            "head"@
        } else {
            "foot"@
        }) + "\"}"@ + ","@) + ("{\"argName\":\"pri\",\"argValue\":\""@ + decimal(pri as nat)
            + "\"}"@ + ","@) + ("{\"argName\":\"rule\",\"argValue\":\""@ + json_chars(rule)
            + "\"}"@) + "],\"functionName\":\"edge_function\"}]"@,
        json_unescaped(json_chars(name)) == Some(name),
        json_unescaped(json_chars(rule)) == Some(rule),
        is_decimal(decimal(pri as nat)),
        number(decimal(pri as nat)) == pri,
{
    law_json_string_is_read_back(name);
    law_json_string_is_read_back(rule);
    law_decimal_is_read_back(pri as nat);
    lemma_config_parts(enable, name, pos, pri, rule);
    lemma_config_literals();
    lemma_argument_literals();
    lemma_argument_parts("enable"@, enable.api_value());
    lemma_argument_parts("name"@, name);
    lemma_argument_parts("pos"@, pos.api_value());
    lemma_argument_parts("pri"@, decimal(pri as nat));
    lemma_argument_parts("rule"@, rule);
    reveal_strlit("\"}");
    reveal_strlit(",");
    reveal_strlit("on");
    reveal_strlit("off");
    reveal_strlit("head");
    reveal_strlit("foot");
    law_plain_json_is_kept("on"@);
    law_plain_json_is_kept("off"@);
    law_plain_json_is_kept("head"@);
    law_plain_json_is_kept("foot"@);
    law_plain_json_is_kept(decimal(pri as nat));
    assert(seq!['"', '}'] =~= "\"}"@);
    assert(seq![','] =~= ","@);
    lemma_joined_shown(
        "[{\"functionArgs\":["@,
        argument_text("enable"@, enable.api_value()),
        argument_text("name"@, name),
        argument_text("pos"@, pos.api_value()),
        argument_text("pri"@, decimal(pri as nat)),
        argument_text("rule"@, rule),
        ","@,
        "],\"functionName\":\"edge_function\"}]"@,
    );
}

/// Five texts with a mark behind each but the last, taken from the left or from
/// the right.
proof fn lemma_joined_shown(
    head: Seq<char>,
    a: Seq<char>,
    b: Seq<char>,
    c: Seq<char>,
    d: Seq<char>,
    e: Seq<char>,
    mark: Seq<char>,
    tail: Seq<char>,
)
    ensures
        head + (a + (mark + (b + (mark + (c + (mark + (d + (mark + (e + tail))))))))) == head + (a
            + mark) + (b + mark) + (c + mark) + (d + mark) + e + tail,
{
    assert(head + (a + (mark + (b + (mark + (c + (mark + (d + (mark + (e + tail))))))))) =~= head
        + (a + mark) + (b + mark) + (c + mark) + (d + mark) + e + tail);
}

} // verus!
