//! Rendering of a node's display form from its name and stat.
//!
//! The display name carries a trailing `/ ` marker when the node has
//! children; emphasis (green) marks a node holding data, italics mark an
//! ephemeral node. Styling is additive metadata only: the underlying text
//! is exactly the display name, and the name used for path construction is
//! never the styled form.

use crate::node::NodeStat;
use colored::{Color, ColoredString, Colorize};
use vstd::prelude::*;
use vstd::string::*;

verus! {

#[verifier::external_type_specification]
pub struct ExColor(Color);

#[verifier::external_type_specification]
#[verifier::external_body]
pub struct ExStyle(colored::Style);

#[verifier::external_type_specification]
pub struct ExColoredString(ColoredString);

/// Relies on colored's `From<String> for ColoredString`: the conversion
/// keeps the text and applies no color and no styling.
#[verifier::external_body]
fn plain_colored(text: String) -> (r: ColoredString)
    ensures
        r.input@ == text@,
        r.fgcolor is None,
        r.bgcolor is None,
{
    ColoredString::from(text)
}

/// Relies on colored's `Colorize::color` on a `ColoredString`: it sets the
/// foreground color and keeps everything else.
#[verifier::external_body]
fn with_color(c: ColoredString, color: Color) -> (r: ColoredString)
    ensures
        r.input@ == c.input@,
        r.fgcolor == Some(color),
        r.bgcolor == c.bgcolor,
        r.style == c.style,
{
    c.color(color)
}

/// Relies on colored's `Colorize::bold` on a `ColoredString`: it adds the
/// bold style bit and keeps the text and the colors.
#[verifier::external_body]
fn with_bold(c: ColoredString) -> (r: ColoredString)
    ensures
        r.input@ == c.input@,
        r.fgcolor == c.fgcolor,
        r.bgcolor == c.bgcolor,
{
    c.bold()
}

/// Relies on colored's `Colorize::italic` on a `ColoredString`: it adds the
/// italic style bit and keeps the text and the colors.
#[verifier::external_body]
fn with_italic(c: ColoredString) -> (r: ColoredString)
    ensures
        r.input@ == c.input@,
        r.fgcolor == c.fgcolor,
        r.bgcolor == c.bgcolor,
{
    c.italic()
}

/// The text shown for a node: its name, with a trailing `/ ` marker when it
/// has children — except for the root, whose name is the separator already.
pub open spec fn display_name_spec(name: Seq<char>, stat: NodeStat) -> Seq<char> {
    if stat.num_children == 0 || name == seq!['/'] {
        name
    } else {
        name + seq!['/', ' ']
    }
}

/// Compute the display text for a node from its name and stat.
pub fn display_name(name: &str, stat: &NodeStat) -> (r: String)
    ensures
        r@ == display_name_spec(name@, *stat),
{
    proof {
        reveal_strlit("/ ");
    }
    let root = name.unicode_len() == 1 && name.get_char(0) == '/';
    proof {
        if root {
            assert(name@ =~= seq!['/']);
        }
        if name@ == seq!['/'] {
            assert(name@.len() == 1 && name@[0] == '/');
        }
    }
    if stat.num_children == 0 || root {
        String::from_str(name)
    } else {
        let mut r = String::from_str(name);
        r.append("/ ");
        proof {
            assert(r@ =~= name@ + seq!['/', ' ']);
        }
        r
    }
}

/// Render a node's display form: the marked name in bold, blue by default,
/// green when the node holds data, and italic when it is ephemeral. The
/// underlying text is exactly the display name.
pub fn format_node_from_stat(name: &str, stat: &NodeStat) -> (r: ColoredString)
    ensures
        r.input@ == display_name_spec(name@, *stat),
        r.fgcolor == Some(if stat.data_length > 0 {
            Color::Green
        } else {
            Color::Blue
        }),
{
    let text = display_name(name, stat);
    let mut c = plain_colored(text);
    c = with_bold(c);
    c = with_color(c, Color::Blue);
    if stat.data_length > 0 {
        c = with_color(c, Color::Green);
    }
    if stat.ephemeral {
        c = with_italic(c);
    }
    c
}

/// The indentation prefix for a node printed at the given depth of the
/// tree: two spaces per level.
pub open spec fn indent_spec(depth: nat) -> Seq<char> {
    Seq::new(2 * depth, |i: int| ' ')
}

/// Build the indentation prefix for the given depth.
pub fn indent(depth: usize) -> (r: String)
    ensures
        r@ == indent_spec(depth as nat),
{
    proof {
        reveal_strlit("  ");
    }
    let mut r = String::new();
    proof {
        assert(r@ =~= indent_spec(0));
    }
    let mut k: usize = 0;
    while k < depth
        invariant
            k <= depth,
            r@ == indent_spec(k as nat),
        decreases depth - k,
    {
        r.append("  ");
        proof {
            reveal_strlit("  ");
            assert(r@ =~= indent_spec((k + 1) as nat));
        }
        k += 1;
    }
    r
}

} // verus!
