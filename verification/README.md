# tsukimi

The rules behind the portable build of the tsukimi video client, verified with Verus.

- `src/winrender.rs`: the render thread's decisions, the layout of the buffer that mpv draws into,
  and the finished frame.
- `src/platform.rs`: the setup of the environment for a package that ships its own libraries, one
  request and one reply at a time, and the rewriting of the gdk-pixbuf loader cache.
- `src/language.rs`: the locale variables that translations are looked up with.
- `src/frame.rs`: the types that frames and viewports travel in.
- `src/text.rs`: searching, replacing, joining and decimal numbers on text.

`app/` holds what reaches outside: channels, threads, mpv, the file system, the environment and the
floating point factor of the viewport. The library has no item that is trusted without proof.
