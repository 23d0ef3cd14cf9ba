//! Icon references and the asset paths of named icons.
use vstd::prelude::*;
use vstd::string::StringExecFns;

verus! {

/// Edge length class of the icons of a tree view.
#[derive(Clone, Copy, Debug, PartialEq, Eq, Structural)]
pub enum IconSize {
    XSmall,
    Small,
    Medium,
}

impl IconSize {
    /// Edge length in logical pixels.
    pub open spec fn pixels_spec(self) -> u32 {
        match self {
            IconSize::XSmall => 16,
            IconSize::Small => 24,
            IconSize::Medium => 32,
        }
    }

    /// Edge length in logical pixels.
    pub fn pixels(self) -> (r: u32)
        ensures
            r == self.pixels_spec(),
    {
        match self {
            IconSize::XSmall => 16,
            IconSize::Small => 24,
            IconSize::Medium => 32,
        }
    }
}

impl Default for IconSize {
    fn default() -> (r: IconSize)
        ensures
            r == IconSize::XSmall,
    {
        IconSize::XSmall
    }
}

/// An icon looked up by name among the bundled icon images.
#[derive(Debug)]
pub struct NamedIcon(pub String);

/// The size part of an icon file name.
pub open spec fn size_suffix(size: IconSize) -> Seq<char> {
    match size {
        IconSize::XSmall => "16x16"@,
        IconSize::Small => "24x24"@,
        IconSize::Medium => "32x32"@,
    }
}

/// The asset path of the bundled icon `name` at the given size, in its
/// double-density variant on high-density displays.
pub open spec fn icon_path_spec(name: Seq<char>, size: IconSize, high_density: bool) -> Seq<char> {
    "icons/"@ + name + "."@ + size_suffix(size) + (if high_density {
        "@2x"@
    } else {
        ""@
    }) + ".png"@
}

impl NamedIcon {
    /// The asset path of this icon. `high_density` holds where the display
    /// scale exceeds one physical pixel per logical pixel.
    pub fn asset_path(&self, size: IconSize, high_density: bool) -> (r: String)
        ensures
            r@ == icon_path_spec(self.0@, size, high_density),
    {
        let mut path = String::from_str("icons/");
        path.append(self.0.as_str());
        path.append(".");
        match size {
            IconSize::XSmall => path.append("16x16"),
            IconSize::Small => path.append("24x24"),
            IconSize::Medium => path.append("32x32"),
        }
        if high_density {
            path.append("@2x");
        } else {
            path.append("");
        }
        path.append(".png");
        path
    }
}

/// What an icon is, as the engine and its contracts see it.
pub enum IconView {
    Named(Seq<char>),
    Image(u64),
}

/// An icon reference: a bundled icon by name, or an image handle given by the host.
#[derive(Debug)]
pub enum Icon {
    Named(NamedIcon),
    Image(u64),
}

impl View for Icon {
    type V = IconView;

    open spec fn view(&self) -> IconView {
        match self {
            Icon::Named(n) => IconView::Named(n.0@),
            Icon::Image(h) => IconView::Image(*h),
        }
    }
}

impl Icon {
    /// The bundled icon called `name`.
    pub fn named(name: &str) -> (r: Icon)
        ensures
            r@ == IconView::Named(name@),
    {
        Icon::Named(NamedIcon(String::from_str(name)))
    }

    /// A copy of this reference.
    pub fn duplicate(&self) -> (r: Icon)
        ensures
            r@ == self@,
    {
        match self {
            Icon::Named(n) => Icon::Named(NamedIcon(n.0.clone())),
            Icon::Image(h) => Icon::Image(*h),
        }
    }
}

} // verus!
