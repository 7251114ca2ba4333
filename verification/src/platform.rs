//! Startup defaults of the desktop integration: which file dialogs to use, and which
//! display backend a VA pipeline needs.
use vstd::prelude::*;

verus! {

/// How the application is packaged.
#[derive(Clone, Copy, Debug, PartialEq, Eq, Structural)]
pub enum Packaging {
    Native,
    Flatpak,
}

/// Which file dialogs the interface uses.
#[derive(Clone, Copy, Debug, PartialEq, Eq, Structural)]
pub enum DialogBackend {
    Portal,
    QtQuick,
}

/// Why the desktop portal cannot serve file dialogs.
#[derive(Clone, Copy, Debug, PartialEq, Eq, Structural)]
pub enum PortalError {
    /// The portal platform theme is not loaded.
    ThemeUnavailable,
    /// The FileChooser portal could not be queried.
    Query,
    /// The FileChooser portal is older than folder selection.
    UnsupportedVersion(u32),
}

/// The FileChooser version that added folder selection.
pub const PORTAL_FOLDER_VERSION: u32 = 3;

/// Whether portal dialogs can be used: the theme must be loaded and the FileChooser
/// portal must select folders. `version` is the portal's answer, when asked.
pub fn portal_available(theme_loaded: bool, version: Result<u32, ()>) -> (available: Result<(), PortalError>)
    ensures
        available == if !theme_loaded {
            Err(PortalError::ThemeUnavailable)
        } else {
            match version {
                Err(()) => Err(PortalError::Query),
                Ok(v) => if v < PORTAL_FOLDER_VERSION {
                    Err(PortalError::UnsupportedVersion(v))
                } else {
                    Ok(())
                },
            }
        },
{
    if !theme_loaded {
        return Err(PortalError::ThemeUnavailable);
    }
    match version {
        Err(()) => Err(PortalError::Query),
        Ok(v) => if v < PORTAL_FOLDER_VERSION {
            Err(PortalError::UnsupportedVersion(v))
        } else {
            Ok(())
        },
    }
}

/// Prepared before the interface starts; finished once its platform theme has loaded.
pub struct DialogSetup {
    packaging: Packaging,
}

impl DialogSetup {
    pub closed spec fn packaging_spec(self) -> Packaging {
        self.packaging
    }

    pub fn new(packaging: Packaging) -> (setup: DialogSetup)
        ensures
            setup.packaging_spec() == packaging,
    {
        DialogSetup { packaging }
    }

    /// A Flatpak always uses the portal, which grants access outside the sandbox; a
    /// native installation uses it when available, else Qt Quick dialogs.
    pub fn finish(self, portal: Result<(), PortalError>) -> (backend: DialogBackend)
        ensures
            backend == match self.packaging_spec() {
                Packaging::Flatpak => DialogBackend::Portal,
                Packaging::Native => if portal is Ok {
                    DialogBackend::Portal
                } else {
                    DialogBackend::QtQuick
                },
            },
    {
        match self.packaging {
            Packaging::Flatpak => DialogBackend::Portal,
            Packaging::Native => match portal {
                Ok(()) => DialogBackend::Portal,
                Err(_) => DialogBackend::QtQuick,
            },
        }
    }
}

/// The display settings a VA pipeline needs, unless set explicitly: Wayland for the Qt
/// platform and EGL for GStreamer GL.
pub fn startup_overrides(va: bool, qt_platform_set: bool, gl_platform_set: bool) -> (overrides: (bool, bool))
    ensures
        overrides == (va && !qt_platform_set, va && !gl_platform_set),
{
    (va && !qt_platform_set, va && !gl_platform_set)
}

/// The selection index the interface shows: the selected channel, else -1.
pub fn selected_value(index: Option<usize>) -> (value: i32)
    ensures
        value == match index {
            Some(i) => if i <= i32::MAX {
                i as int
            } else {
                -1
            },
            None => -1,
        },
{
    match index {
        Some(i) => if i <= i32::MAX as usize {
            i as i32
        } else {
            -1
        },
        None => -1,
    }
}

/// The channel index the interface asks for; negative values select nothing.
pub fn requested_index(value: i32) -> (index: Option<usize>)
    ensures
        index == if value >= 0 {
            Some(value as usize)
        } else {
            None::<usize>
        },
{
    if value >= 0 {
        Some(value as usize)
    } else {
        None
    }
}

} // verus!
