//! The installer's decisions: which components are installed and in what
//! order, where each goes under the user's home, and the report handed
//! back. Copying the files is left to the caller.

use vstd::prelude::*;
use vstd::string::*;
use crate::classify::Components;

verus! {

/// One installable component of a theme.
#[derive(Clone, Copy, Debug, PartialEq, Eq, Structural)]
pub enum Component {
    WindowTheme,
    Icons,
    Cursors,
    Fonts,
}

/// How a component is named in the report.
pub open spec fn component_label(c: Component) -> Seq<char> {
    match c {
        Component::WindowTheme => "GTK/Window Manager theme"@,
        Component::Icons => "Icons"@,
        Component::Cursors => "Cursors"@,
        Component::Fonts => "Fonts"@,
    }
}

/// The directory under the home directory that receives a component.
pub open spec fn component_subdir(c: Component) -> Seq<char> {
    match c {
        Component::WindowTheme => "/.themes/"@,
        Component::Icons => "/.icons/"@,
        Component::Cursors => "/.icons/"@,
        Component::Fonts => "/.local/share/fonts/"@,
    }
}

/// The components to install, in installation order.
pub open spec fn planned(c: Components) -> Seq<Component> {
    (if c.gtk { seq![Component::WindowTheme] } else { Seq::empty() }) + (if c.icons {
        seq![Component::Icons]
    } else {
        Seq::empty()
    }) + (if c.cursors { seq![Component::Cursors] } else { Seq::empty() }) + (if c.fonts {
        seq![Component::Fonts]
    } else {
        Seq::empty()
    })
}

/// The labels of `cs` separated by `, `.
pub open spec fn labels_joined(cs: Seq<Component>) -> Seq<char>
    decreases cs.len(),
{
    if cs.len() == 0 {
        Seq::empty()
    } else if cs.len() == 1 {
        component_label(cs[0])
    } else {
        labels_joined(cs.drop_last()) + ", "@ + component_label(cs.last())
    }
}

/// The components line of the report.
pub open spec fn components_text(cs: Seq<Component>) -> Seq<char> {
    if cs.len() == 0 {
        "No compatible components found"@
    } else {
        labels_joined(cs)
    }
}

/// The report of an installation of `cs` for the theme `name`.
pub open spec fn report_text(name: Seq<char>, cs: Seq<Component>) -> Seq<char> {
    "Theme '"@ + name + "' installed successfully!\nComponents: "@ + components_text(cs)
}

/// The report with the outcome of activation appended: its message on
/// success, a warning with its error on failure.
pub open spec fn activation_text(report: Seq<char>, outcome: Result<Seq<char>, Seq<char>>) -> Seq<
    char,
> {
    match outcome {
        Ok(msg) => report + "\n\n"@ + msg,
        Err(e) => report + "\n\n\u{26a0}\u{fe0f} Failed to auto-apply: "@ + e,
    }
}

/// The components to install for a classification, in installation order.
pub fn planned_components(c: &Components) -> (r: Vec<Component>)
    ensures
        r@ == planned(*c),
{
    let mut r: Vec<Component> = Vec::new();
    if c.gtk {
        r.push(Component::WindowTheme);
    }
    if c.icons {
        r.push(Component::Icons);
    }
    if c.cursors {
        r.push(Component::Cursors);
    }
    if c.fonts {
        r.push(Component::Fonts);
    }
    assert(r@ =~= planned(*c));
    r
}

/// How a component is named in the report.
pub fn label(c: Component) -> (r: &'static str)
    ensures
        r@ == component_label(c),
{
    match c {
        Component::WindowTheme => "GTK/Window Manager theme",
        Component::Icons => "Icons",
        Component::Cursors => "Cursors",
        Component::Fonts => "Fonts",
    }
}

/// Where a component of the theme `theme_name` is installed, under `home`.
pub fn install_destination(home: &str, theme_name: &str, c: Component) -> (r: String)
    ensures
        r@ == home@ + component_subdir(c) + theme_name@,
{
    let sub = match c {
        Component::WindowTheme => "/.themes/",
        Component::Icons => "/.icons/",
        Component::Cursors => "/.icons/",
        Component::Fonts => "/.local/share/fonts/",
    };
    let mut r = String::from_str(home);
    r.append(sub);
    r.append(theme_name);
    r
}

/// The report of an installation of `installed` for the theme `theme_name`.
pub fn install_report(theme_name: &str, installed: &Vec<Component>) -> (r: String)
    ensures
        r@ == report_text(theme_name@, installed@),
{
    let mut r = String::from_str("Theme '");
    r.append(theme_name);
    r.append("' installed successfully!\nComponents: ");
    if installed.len() == 0 {
        r.append("No compatible components found");
        return r;
    }
    let ghost head = r@;
    let mut i: usize = 0;
    while i < installed.len()
        invariant
            0 < installed@.len(),
            i <= installed@.len(),
            r@ == head + labels_joined(installed@.take(i as int)),
        decreases installed@.len() - i,
    {
        proof {
            assert(installed@.take(i + 1).drop_last() =~= installed@.take(i as int));
            assert(installed@.take(i + 1).last() == installed@[i as int]);
        }
        if i > 0 {
            r.append(", ");
        }
        r.append(label(installed[i]));
        proof {
            if i == 0 {
                assert(labels_joined(installed@.take(0)) =~= Seq::empty());
                assert(r@ =~= head + labels_joined(installed@.take(1)));
            } else {
                assert(r@ =~= head + labels_joined(installed@.take(i + 1)));
            }
        }
        i = i + 1;
    }
    assert(installed@.take(installed@.len() as int) =~= installed@);
    r
}

/// Appends the outcome of theme activation to a report: activation is best
/// effort, so a failure becomes a warning.
pub fn with_activation(report: String, outcome: Result<String, String>) -> (r: String)
    ensures
        r@ == activation_text(
            report@,
            match outcome {
                Ok(m) => Ok(m@),
                Err(e) => Err(e@),
            },
        ),
{
    let mut r = report;
    match outcome {
        Ok(msg) => {
            r.append("\n\n");
            r.append(msg.as_str());
        },
        Err(e) => {
            r.append("\n\n\u{26a0}\u{fe0f} Failed to auto-apply: ");
            r.append(e.as_str());
        },
    }
    r
}

/// A theme in which no component was recognized installs nothing, and the
/// report says that no compatible components were found.
pub proof fn lemma_nothing_found(name: Seq<char>)
    ensures
        planned(Components { gtk: false, icons: false, cursors: false, fonts: false }).len() == 0,
        report_text(
            name,
            planned(Components { gtk: false, icons: false, cursors: false, fonts: false }),
        ) == "Theme '"@ + name + "' installed successfully!\nComponents: "@
            + "No compatible components found"@,
{
    let c = Components { gtk: false, icons: false, cursors: false, fonts: false };
    assert(planned(c) =~= Seq::empty());
}

} // verus!
