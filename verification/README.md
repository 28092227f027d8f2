# rusty_cam

A WebRTC camera for a local network: a signaling server, a page for viewers, and a camera that
answers the offers of its viewers with live video and audio.

`src/` is the verified library. It decides; it does no I/O.

- `utils`: the signaling messages, and JSON text as a value
- `wire`: the JSON objects that messages travel as
- `handles`: handles for queues and connections, none given out twice
- `table`: a table from names to handles
- `signaling_server`: what the server does with the frames of its sockets
- `viewers`: which viewers the camera serves
- `camera_peer`: what the camera does with the messages it gets, and what it says itself
- `frame`, `capture`: raw frames, the live indicator, and the rounds of capturing and encoding
- `media`: pipelines, audio samples and bus reports
- `page`: the page that viewers open

`app/` is the program around it: sockets, peer connections and media pipelines. It reads the
page's template from `static/cam.html` below the working directory.

`tests/` runs the library on concrete values.
